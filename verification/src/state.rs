//! Sessions of the local machine, as they are kept between runs.

use vstd::prelude::*;
use vstd::slice::slice_to_vec;
use crate::files;
use crate::text;

verus! {

/// The first second of the calendar, of the year -262143, counted from 1970.
pub const FIRST_SECOND: i64 = -8_334_601_228_800;

/// The last second of the calendar, of the year 262142, counted from 1970.
pub const LAST_SECOND: i64 = 8_210_266_876_799;

/// The calendar has a time so many seconds after the start of 1970, and
/// nanoseconds on top. Those of a leap second go on beyond the last second of a
/// minute.
pub open spec fn in_calendar(secs: i64, nanos: u32) -> bool {
    &&& FIRST_SECOND <= secs <= LAST_SECOND
    &&& nanos < 1_000_000_000 || (nanos < 2_000_000_000 && secs % 60 == 59)
}

/// The RFC 3339 text of a time in UTC, with its offset in digits.
pub uninterp spec fn rfc3339_text(secs: i64, nanos: u32) -> Seq<char>;

/// `chrono::DateTime::to_rfc3339` on the time in UTC that these seconds and
/// nanoseconds tell.
#[verifier::external_body]
fn format_rfc3339(secs: i64, nanos: u32) -> (r: String)
    requires
        in_calendar(secs, nanos),
    ensures
        r@ == rfc3339_text(secs, nanos),
{
    chrono::DateTime::from_timestamp(secs, nanos).expect("a time of the calendar").to_rfc3339()
}

/// The RFC 3339 text of a time in UTC, with `Z` for its offset.
pub uninterp spec fn utc_text(secs: i64, nanos: u32) -> Seq<char>;

/// `chrono::DateTime::to_rfc3339_opts`, with as many digits of the second as it has
/// and `Z` for UTC, on the time in UTC that these seconds and nanoseconds tell.
#[verifier::external_body]
fn format_utc(secs: i64, nanos: u32) -> (r: String)
    requires
        in_calendar(secs, nanos),
    ensures
        r@ == utc_text(secs, nanos),
{
    chrono::DateTime::from_timestamp(secs, nanos)
        .expect("a time of the calendar")
        .to_rfc3339_opts(chrono::SecondsFormat::AutoSi, true)
}

/// `chrono::Utc::now`: the clock of the machine, in seconds since 1970 and
/// nanoseconds. What it reads is left open; it is a time that the calendar has.
#[verifier::external_body]
fn read_clock() -> (r: (i64, u32))
    ensures
        in_calendar(r.0, r.1),
{
    let now = chrono::Utc::now();
    (now.timestamp(), now.timestamp_subsec_nanos())
}

/// A time in UTC that the calendar has.
#[derive(Debug, PartialEq, Eq)]
pub struct Timestamp {
    secs: i64,
    nanos: u32,
}

impl View for Timestamp {
    type V = (i64, u32);

    closed spec fn view(&self) -> (i64, u32) {
        (self.secs, self.nanos)
    }
}

impl Timestamp {
    #[verifier::type_invariant]
    spec fn exists_in_calendar(self) -> bool {
        in_calendar(self.secs, self.nanos)
    }

    /// The time so many seconds after the start of 1970, and nanoseconds on
    /// top, where the calendar has it.
    pub fn new(secs: i64, nanos: u32) -> (r: Option<Self>)
        ensures
            r is Some <==> in_calendar(secs, nanos),
            r matches Some(t) ==> t@ == (secs, nanos),
    {
        if secs < FIRST_SECOND || secs > LAST_SECOND || nanos >= 2_000_000_000 {
            return None;
        }
        if nanos >= 1_000_000_000 {
            let since: u64 = (secs - FIRST_SECOND) as u64;
            assert(since % 60 == secs % 60);
            if since % 60 != 59 {
                return None;
            }
        }
        Some(Self { secs, nanos })
    }

    /// The present time.
    pub fn now() -> (r: Self)
        ensures
            in_calendar(r@.0, r@.1),
    {
        let (secs, nanos): (i64, u32) = read_clock();
        Self { secs, nanos }
    }

    /// The time as it stands in the state file.
    pub fn to_text(&self) -> (r: String)
        ensures
            r@ == utc_text(self@.0, self@.1),
            in_calendar(self@.0, self@.1),
    {
        proof {
            use_type_invariant(&*self);
        }
        format_utc(self.secs, self.nanos)
    }

    /// Seconds since the start of 1970.
    pub fn secs(&self) -> (r: i64)
        ensures
            r == self@.0,
    {
        self.secs
    }

    /// Nanoseconds on top of the seconds.
    pub fn nanos(&self) -> (r: u32)
        ensures
            r == self@.1,
    {
        self.nanos
    }

    /// The time as RFC 3339 has it.
    pub fn to_rfc3339(&self) -> (r: String)
        ensures
            r@ == rfc3339_text(self@.0, self@.1),
    {
        proof {
            use_type_invariant(&*self);
        }
        format_rfc3339(self.secs, self.nanos)
    }
}

impl Clone for Timestamp {
    fn clone(&self) -> (r: Self)
        ensures
            r == *self,
    {
        proof {
            use_type_invariant(&*self);
        }
        Self { secs: self.secs, nanos: self.nanos }
    }
}

#[derive(Debug, PartialEq, Eq)]
pub struct Session {
    pub user: String,
    pub service: String,
    pub started_at: Timestamp,
    pub local_port: u16,
    pub remote_port: u16,
    pub pid: Option<u32>,
    /// Local ports of the outbound forwards that this session opened itself.
    pub forward_local_ports: Vec<u16>,
}

/// What a session holds.
#[verifier::ext_equal]
pub struct SessionView {
    pub user: Seq<char>,
    pub service: Seq<char>,
    pub started_at: (i64, u32),
    pub local_port: u16,
    pub remote_port: u16,
    pub pid: Option<u32>,
    pub forward_local_ports: Seq<u16>,
}

impl View for Session {
    type V = SessionView;

    open spec fn view(&self) -> SessionView {
        SessionView {
            user: self.user@,
            service: self.service@,
            started_at: self.started_at@,
            local_port: self.local_port,
            remote_port: self.remote_port,
            pid: self.pid,
            forward_local_ports: self.forward_local_ports@,
        }
    }
}

impl Clone for Session {
    fn clone(&self) -> (r: Self)
        ensures
            r@ == self@,
    {
        Session {
            user: self.user.clone(),
            service: self.service.clone(),
            started_at: self.started_at.clone(),
            local_port: self.local_port,
            remote_port: self.remote_port,
            pid: self.pid,
            forward_local_ports: slice_to_vec(self.forward_local_ports.as_slice()),
        }
    }
}

/// What a list of sessions holds.
pub open spec fn session_views(v: Seq<Session>) -> Seq<SessionView> {
    v.map_values(|s: Session| s@)
}

/// The items that satisfy `f`, in their order.
pub open spec fn kept<T>(items: Seq<T>, f: spec_fn(T) -> bool) -> Seq<T>
    decreases items.len(),
{
    if items.len() == 0 {
        seq![]
    } else if f(items.last()) {
        kept(items.drop_last(), f).push(items.last())
    } else {
        kept(items.drop_last(), f)
    }
}

/// The items whose flag is `want`, in their order.
pub open spec fn picked<T>(items: Seq<T>, flags: Seq<bool>, want: bool) -> Seq<T>
    decreases items.len(),
{
    if items.len() == 0 {
        seq![]
    } else {
        let rest = picked(items.drop_last(), flags, want);
        if flags[items.len() - 1] == want {
            rest.push(items.last())
        } else {
            rest
        }
    }
}

/// Not the session of this pair.
pub open spec fn of_another_pair(user: Seq<char>, service: Seq<char>) -> spec_fn(
    SessionView,
) -> bool {
    |s: SessionView| !(s.user == user && s.service == service)
}

/// A session of this user.
pub open spec fn of_user(user: Seq<char>) -> spec_fn(SessionView) -> bool {
    |s: SessionView| s.user == user
}

/// The sessions with one added, in place of any other of the same pair.
pub open spec fn upserted(sessions: Seq<SessionView>, session: SessionView) -> Seq<SessionView> {
    kept(sessions, of_another_pair(session.user, session.service)).push(session)
}

/// The first session of the user that opened a forward on the port.
pub open spec fn owner_of(
    sessions: Seq<SessionView>,
    user: Seq<char>,
    local_port: u16,
) -> Option<SessionView>
    decreases sessions.len(),
{
    if sessions.len() == 0 {
        None
    } else if owns(sessions[0], user, local_port) {
        Some(sessions[0])
    } else {
        owner_of(sessions.drop_first(), user, local_port)
    }
}

/// The session is the user's and opened a forward on the port.
pub open spec fn owns(session: SessionView, user: Seq<char>, local_port: u16) -> bool {
    session.user == user && session.forward_local_ports.contains(local_port)
}

#[derive(Debug, PartialEq, Eq)]
pub struct State {
    pub sessions: Vec<Session>,
}

impl View for State {
    type V = Seq<SessionView>;

    open spec fn view(&self) -> Seq<SessionView> {
        session_views(self.sessions@)
    }
}

impl Default for State {
    fn default() -> (r: Self)
        ensures
            r@ == Seq::<SessionView>::empty(),
    {
        let r = State { sessions: Vec::new() };
        assert(r@ =~= Seq::<SessionView>::empty());
        r
    }
}

impl Clone for State {
    fn clone(&self) -> (r: Self)
        ensures
            r@ == self@,
    {
        let mut sessions: Vec<Session> = Vec::new();
        let mut i: usize = 0;
        while i < self.sessions.len()
            invariant
                i <= self.sessions@.len(),
                session_views(sessions@) == self@.take(i as int),
            decreases self.sessions@.len() - i,
        {
            let ghost before = sessions@;
            let s = self.sessions[i].clone();
            sessions.push(s);
            assert(session_views(sessions@) =~= session_views(before).push(s@));
            assert(self@.take(i + 1) =~= self@.take(i as int).push(self@[i as int]));
            i = i + 1;
        }
        assert(self@.take(i as int) =~= self@);
        State { sessions }
    }
}

/// Whether the port is one of the list.
fn has_port(ports: &Vec<u16>, port: u16) -> (r: bool)
    ensures
        r == ports@.contains(port),
{
    let mut i: usize = 0;
    while i < ports.len()
        invariant
            i <= ports@.len(),
            forall|j: int| 0 <= j < i ==> #[trigger] ports@[j] != port,
        decreases ports@.len() - i,
    {
        if ports[i] == port {
            assert(ports@[i as int] == port);
            return true;
        }
        i = i + 1;
    }
    false
}

impl State {
    /// Add a session, replacing any existing one with the same (user, service).
    pub fn upsert(&mut self, session: Session)
        ensures
            final(self)@ == upserted(old(self)@, session@),
    {
        let ghost all = self@;
        let ghost f = of_another_pair(session@.user, session@.service);
        let ghost mut done: int = 0;
        let mut i: usize = 0;
        assert(all.skip(0) =~= all);
        assert(kept(all.take(0), f) + all.skip(0) =~= all);
        while i < self.sessions.len()
            invariant
                0 <= done <= all.len(),
                f == of_another_pair(session@.user, session@.service),
                self@ == kept(all.take(done), f) + all.skip(done),
                i == kept(all.take(done), f).len(),
                i <= self.sessions@.len(),
            decreases self.sessions@.len() - i,
        {
            let ghost before = self@;
            assert(done < all.len());
            assert(before[i as int] == all[done]);
            assert(all.take(done + 1).drop_last() =~= all.take(done));
            assert(all.take(done + 1).last() == all[done]);
            if text::same(self.sessions[i].user.as_str(), session.user.as_str()) && text::same(
                self.sessions[i].service.as_str(),
                session.service.as_str(),
            ) {
                self.sessions.remove(i);
                assert(self@ =~= before.remove(i as int));
                assert(self@ =~= kept(all.take(done), f) + all.skip(done + 1));
            } else {
                assert(before =~= kept(all.take(done), f).push(all[done]) + all.skip(done + 1));
                i = i + 1;
            }
            proof {
                done = done + 1;
            }
        }
        assert(done == all.len());
        assert(all.take(done) =~= all);
        assert(self@ =~= kept(all, f));
        self.sessions.push(session);
        assert(self@ =~= kept(all, f).push(session@));
    }

    /// Remove sessions matching the predicate; returns the removed entries.
    pub fn remove_where(&mut self, pred: impl Fn(&Session) -> bool) -> (r: Vec<Session>)
        requires
            forall|s: Session| #[trigger] pred.requires((&s,)),
        ensures
            exists|flags: Seq<bool>|
                {
                    &&& flags.len() == old(self).sessions@.len()
                    &&& forall|i: int|
                        0 <= i < flags.len() ==> pred.ensures(
                            (&old(self).sessions@[i],),
                            #[trigger] flags[i],
                        )
                    &&& r@ == #[trigger] picked(old(self).sessions@, flags, true)
                    &&& final(self).sessions@ == picked(old(self).sessions@, flags, false)
                },
    {
        let ghost all = self.sessions@;
        let ghost mut flags: Seq<bool> = seq![];
        let mut removed: Vec<Session> = Vec::new();
        let mut i: usize = 0;
        assert(all.skip(0) =~= all);
        assert(picked(all.take(0), flags, false) + all.skip(0) =~= all);
        while i < self.sessions.len()
            invariant
                flags.len() <= all.len(),
                forall|s: Session| #[trigger] pred.requires((&s,)),
                forall|j: int|
                    0 <= j < flags.len() ==> pred.ensures((&all[j],), #[trigger] flags[j]),
                self.sessions@ == picked(all.take(flags.len() as int), flags, false) + all.skip(
                    flags.len() as int,
                ),
                removed@ == picked(all.take(flags.len() as int), flags, true),
                i == picked(all.take(flags.len() as int), flags, false).len(),
                i <= self.sessions@.len(),
            decreases self.sessions@.len() - i,
        {
            let ghost n = flags.len() as int;
            let ghost before = self.sessions@;
            let ghost held = flags;
            assert(n < all.len());
            assert(before[i as int] == all[n]);
            let hit = pred(&self.sessions[i]);
            proof {
                flags = flags.push(hit);
                lemma_picked_prefix(all.take(n), held, flags, true);
                lemma_picked_prefix(all.take(n), held, flags, false);
                assert(all.take(n + 1).drop_last() =~= all.take(n));
                assert(all.take(n + 1).last() == all[n]);
            }
            if hit {
                let s = self.sessions.remove(i);
                removed.push(s);
                assert(self.sessions@ =~= picked(all.take(n), held, false) + all.skip(n + 1));
            } else {
                assert(before =~= picked(all.take(n), held, false).push(all[n]) + all.skip(n + 1));
                i = i + 1;
            }
        }
        assert(flags.len() == all.len());
        assert(all.take(flags.len() as int) =~= all);
        assert(self.sessions@ =~= picked(all, flags, false));
        removed
    }

    /// The sessions of a user, in their order.
    pub fn for_user(&self, user: &str) -> (r: Vec<&Session>)
        ensures
            r@.map_values(|s: &Session| s@) == kept(self@, of_user(user@)),
    {
        let mut out: Vec<&Session> = Vec::new();
        let mut i: usize = 0;
        while i < self.sessions.len()
            invariant
                i <= self.sessions@.len(),
                out@.map_values(|s: &Session| s@) == kept(self@.take(i as int), of_user(user@)),
            decreases self.sessions@.len() - i,
        {
            let ghost before = out@;
            assert(self@.take(i + 1).drop_last() =~= self@.take(i as int));
            assert(self@.take(i + 1).last() == self.sessions@[i as int]@);
            let s = &self.sessions[i];
            if text::same(s.user.as_str(), user) {
                out.push(s);
                assert(out@.map_values(|s: &Session| s@) =~= before.map_values(
                    |s: &Session| s@,
                ).push(s@));
            }
            i = i + 1;
        }
        assert(self@.take(i as int) =~= self@);
        out
    }

    /// The session of the user that opened a forward on the port: the first,
    /// where there are several.
    pub fn forward_owner(&self, user: &str, local_port: u16) -> (r: Option<&Session>)
        ensures
            match r {
                Some(s) => owner_of(self@, user@, local_port) == Some(s@),
                None => owner_of(self@, user@, local_port) is None,
            },
    {
        let ghost all = self@;
        let mut i: usize = 0;
        assert(all.skip(0) =~= all);
        while i < self.sessions.len()
            invariant
                i <= self.sessions@.len(),
                all == self@,
                owner_of(all, user@, local_port) == owner_of(
                    all.skip(i as int),
                    user@,
                    local_port,
                ),
            decreases self.sessions@.len() - i,
        {
            let s = &self.sessions[i];
            assert(all.skip(i as int)[0] == s@);
            assert(all.skip(i as int).drop_first() =~= all.skip(i + 1));
            if text::same(s.user.as_str(), user) && has_port(&s.forward_local_ports, local_port) {
                return Some(s);
            }
            i = i + 1;
        }
        None
    }
}

/// What is picked depends on the flags of the items alone.
proof fn lemma_picked_prefix<T>(items: Seq<T>, a: Seq<bool>, b: Seq<bool>, want: bool)
    requires
        items.len() <= a.len(),
        items.len() <= b.len(),
        forall|i: int| 0 <= i < items.len() ==> a[i] == b[i],
    ensures
        picked(items, a, want) == picked(items, b, want),
    decreases items.len(),
{
    if items.len() > 0 {
        lemma_picked_prefix(items.drop_last(), a, b, want);
    }
}

/// Where the state file stands: below the directory that is given for it, or
/// else below the home directory.
pub open spec fn state_path(dir: Option<Seq<char>>, home: Option<Seq<char>>) -> Option<Seq<char>> {
    match dir {
        Some(d) => Some(files::below(d, "state.json"@)),
        None => match home {
            Some(h) => Some(files::below(files::below(h, ".ephemwork"@), "state.json"@)),
            None => None,
        },
    }
}

/// Default location: `$HOME/.ephemwork/state.json`. Override with
/// `EPHEMWORK_STATE_DIR`. The arguments are the values of the two variables,
/// where they are set; with neither there is no path ("HOME not set").
pub fn default_state_path(dir: Option<String>, home: Option<String>) -> (r: Option<String>)
    ensures
        r is Some <==> dir is Some || home is Some,
        r matches Some(p) ==> state_path(
            match dir {
                Some(d) => Some(d@),
                None => None,
            },
            match home {
                Some(h) => Some(h@),
                None => None,
            },
        ) == Some(p@),
{
    match dir {
        Some(d) => Some(files::join_path(d.as_str(), "state.json")),
        None => match home {
            Some(h) => {
                let below_home = files::join_path(h.as_str(), ".ephemwork");
                Some(files::join_path(below_home.as_str(), "state.json"))
            },
            None => None,
        },
    }
}

/// What is kept satisfies `f` and came from the items.
pub proof fn lemma_kept<T>(items: Seq<T>, f: spec_fn(T) -> bool)
    ensures
        forall|i: int|
            0 <= i < kept(items, f).len() ==> f(#[trigger] kept(items, f)[i]) && items.contains(
                kept(items, f)[i],
            ),
        kept(items, f).len() <= items.len(),
    decreases items.len(),
{
    if items.len() > 0 {
        let rest = items.drop_last();
        lemma_kept(rest, f);
        assert forall|i: int| 0 <= i < kept(items, f).len() implies f(#[trigger] kept(items, f)[i])
            && items.contains(kept(items, f)[i]) by {
            if i < kept(rest, f).len() {
                assert(kept(items, f)[i] == kept(rest, f)[i]);
                let j = choose|j: int| 0 <= j < rest.len() && rest[j] == kept(rest, f)[i];
                assert(items[j] == rest[j]);
            } else {
                assert(items[items.len() - 1] == items.last());
            }
        }
    }
}

/// Keeping twice keeps no less than keeping once.
pub proof fn lemma_kept_twice<T>(items: Seq<T>, f: spec_fn(T) -> bool)
    ensures
        kept(kept(items, f), f) == kept(items, f),
    decreases items.len(),
{
    if items.len() > 0 {
        lemma_kept_twice(items.drop_last(), f);
        if f(items.last()) {
            assert(kept(items, f).drop_last() =~= kept(items.drop_last(), f));
        }
    }
}

/// After a session is recorded it is the only one of its pair, and it stands
/// last; the sessions of other pairs are the ones there were, in their order.
pub proof fn law_upsert_leaves_one_of_a_pair(sessions: Seq<SessionView>, session: SessionView)
    ensures
        upserted(sessions, session).last() == session,
        forall|i: int|
            0 <= i < upserted(sessions, session).len() - 1 ==> of_another_pair(
                session.user,
                session.service,
            )(#[trigger] upserted(sessions, session)[i]),
        kept(upserted(sessions, session), of_another_pair(session.user, session.service)) == kept(
            sessions,
            of_another_pair(session.user, session.service),
        ),
{
    let f = of_another_pair(session.user, session.service);
    lemma_kept(sessions, f);
    lemma_kept_twice(sessions, f);
    assert(upserted(sessions, session).drop_last() =~= kept(sessions, f));
}

/// Recording a pair again is as if it had been recorded only the second time.
pub proof fn law_upsert_replaces(
    sessions: Seq<SessionView>,
    first: SessionView,
    second: SessionView,
)
    requires
        first.user == second.user,
        first.service == second.service,
    ensures
        upserted(upserted(sessions, first), second) == upserted(sessions, second),
{
    law_upsert_leaves_one_of_a_pair(sessions, first);
}

/// No two sessions are of the same pair.
pub open spec fn pairs_distinct(sessions: Seq<SessionView>) -> bool {
    forall|i: int, j: int|
        0 <= i < j < sessions.len() ==> (#[trigger] sessions[i]).user != (
        #[trigger] sessions[j]).user || sessions[i].service != sessions[j].service
}

proof fn lemma_kept_pairs_distinct(sessions: Seq<SessionView>, f: spec_fn(SessionView) -> bool)
    requires
        pairs_distinct(sessions),
    ensures
        pairs_distinct(kept(sessions, f)),
    decreases sessions.len(),
{
    if sessions.len() > 0 {
        let rest = sessions.drop_last();
        assert forall|i: int, j: int| 0 <= i < j < rest.len() implies (#[trigger] rest[i]).user != (
        #[trigger] rest[j]).user || rest[i].service != rest[j].service by {
            assert(sessions[i] == rest[i] && sessions[j] == rest[j]);
        }
        lemma_kept_pairs_distinct(rest, f);
        lemma_kept(rest, f);
        let all = kept(sessions, f);
        let n = kept(rest, f).len();
        assert forall|i: int, j: int| 0 <= i < j < all.len() implies (#[trigger] all[i]).user != (
        #[trigger] all[j]).user || all[i].service != all[j].service by {
            assert(all[i] == kept(rest, f)[i]);
            if j < n {
                assert(all[j] == kept(rest, f)[j]);
            } else {
                let k = choose|k: int| 0 <= k < rest.len() && rest[k] == kept(rest, f)[i];
                assert(sessions[k] == rest[k]);
                assert(sessions[sessions.len() - 1] == all[j]);
            }
        }
    }
}

/// Recording sessions never makes two of the same pair.
pub proof fn law_upsert_keeps_pairs_distinct(sessions: Seq<SessionView>, session: SessionView)
    requires
        pairs_distinct(sessions),
    ensures
        pairs_distinct(upserted(sessions, session)),
{
    let f = of_another_pair(session.user, session.service);
    lemma_kept_pairs_distinct(sessions, f);
    law_upsert_leaves_one_of_a_pair(sessions, session);
    let all = upserted(sessions, session);
    assert forall|i: int, j: int| 0 <= i < j < all.len() implies (#[trigger] all[i]).user != (
    #[trigger] all[j]).user || all[i].service != all[j].service by {
        assert(all[i] == kept(sessions, f)[i]);
        if j < kept(sessions, f).len() {
            assert(all[j] == kept(sessions, f)[j]);
        } else {
            assert(f(all[i]));
        }
    }
}

/// Forgetting a pair that was recorded as new gives back the sessions there
/// were.
pub proof fn law_forget_undoes_record(sessions: Seq<SessionView>, session: SessionView)
    requires
        forall|i: int|
            0 <= i < sessions.len() ==> of_another_pair(session.user, session.service)(
                #[trigger] sessions[i],
            ),
    ensures
        kept(upserted(sessions, session), of_another_pair(session.user, session.service))
            == sessions,
{
    law_upsert_leaves_one_of_a_pair(sessions, session);
    lemma_kept_all(sessions, of_another_pair(session.user, session.service));
}

proof fn lemma_kept_all<T>(items: Seq<T>, f: spec_fn(T) -> bool)
    requires
        forall|i: int| 0 <= i < items.len() ==> f(#[trigger] items[i]),
    ensures
        kept(items, f) == items,
    decreases items.len(),
{
    if items.len() > 0 {
        assert forall|i: int| 0 <= i < items.drop_last().len() implies f(
            #[trigger] items.drop_last()[i],
        ) by {
            assert(items[i] == items.drop_last()[i]);
        }
        lemma_kept_all(items.drop_last(), f);
        assert(f(items[items.len() - 1]));
        assert(kept(items, f) =~= items);
    } else {
        assert(kept(items, f) =~= items);
    }
}

/// What is removed and what stays are together what there was: nothing is lost
/// and nothing doubled.
pub proof fn law_removal_loses_nothing<T>(items: Seq<T>, flags: Seq<bool>)
    ensures
        picked(items, flags, true).to_multiset().add(picked(items, flags, false).to_multiset())
            == items.to_multiset(),
    decreases items.len(),
{
    broadcast use vstd::seq_lib::group_to_multiset_ensures;

    let sum = picked(items, flags, true).to_multiset().add(
        picked(items, flags, false).to_multiset(),
    );
    if items.len() == 0 {
        assert(sum =~= items.to_multiset());
    } else {
        law_removal_loses_nothing(items.drop_last(), flags);
        assert(items =~= items.drop_last().push(items.last()));
        assert(sum =~= items.to_multiset());
    }
}

/// What is picked by flags that say whether `f` holds is what `f` keeps.
pub proof fn lemma_picked_is_kept(
    items: Seq<Session>,
    flags: Seq<bool>,
    want: bool,
    f: spec_fn(SessionView) -> bool,
)
    requires
        items.len() <= flags.len(),
        forall|i: int|
            0 <= i < items.len() ==> (#[trigger] flags[i] == want) == f(items[i]@),
    ensures
        session_views(picked(items, flags, want)) == kept(session_views(items), f),
    decreases items.len(),
{
    if items.len() == 0 {
        assert(session_views(picked(items, flags, want)) =~= kept(session_views(items), f));
    } else {
        let rest = items.drop_last();
        assert forall|i: int| 0 <= i < rest.len() implies (#[trigger] flags[i] == want) == f(
            rest[i]@,
        ) by {
            assert(rest[i] == items[i]);
        }
        lemma_picked_is_kept(rest, flags, want, f);
        assert(session_views(items).drop_last() =~= session_views(rest));
        assert((flags[items.len() - 1] == want) == f(items[items.len() - 1]@));
        assert(session_views(items).last() == items.last()@);
        let p = picked(rest, flags, want);
        assert(session_views(p.push(items.last())) =~= session_views(p).push(items.last()@));
    }
}

/// An item that satisfies `f` is kept.
pub proof fn lemma_kept_contains<T>(items: Seq<T>, f: spec_fn(T) -> bool, at: int)
    requires
        0 <= at < items.len(),
        f(items[at]),
    ensures
        kept(items, f).contains(items[at]),
    decreases items.len(),
{
    let rest = items.drop_last();
    if at < rest.len() {
        assert(rest[at] == items[at]);
        lemma_kept_contains(rest, f, at);
        let k = choose|k: int| 0 <= k < kept(rest, f).len() && kept(rest, f)[k] == items[at];
        assert(kept(items, f)[k] == kept(rest, f)[k]);
    } else {
        assert(kept(items, f).last() == items[at]);
    }
}

/// What is kept of a list is what satisfies the condition, in its order.
pub proof fn law_kept_is_filtered<T>(items: Seq<T>, f: spec_fn(T) -> bool)
    ensures
        kept(items, f) == items.filter(f),
    decreases items.len(),
{
    reveal(Seq::filter);
    if items.len() > 0 {
        law_kept_is_filtered(items.drop_last(), f);
    }
}

/// What is picked by flags is every item whose flag is the wanted one, in their order.
pub proof fn law_picked_by_its_flags<T>(items: Seq<T>, flags: Seq<bool>, want: bool)
    requires
        items.len() == flags.len(),
    ensures
        picked(items, flags, want) == flagged(items, flags, want),
    decreases items.len(),
{
    reveal(Seq::filter);
    let f = |p: (T, bool)| p.1 == want;
    let g = |p: (T, bool)| p.0;
    let zipped = items.zip_with(flags);
    if items.len() > 0 {
        let front = items.drop_last();
        law_picked_by_its_flags(front, flags.drop_last(), want);
        assert(front.zip_with(flags.drop_last()) =~= zipped.drop_last());
        lemma_flags(front, flags, flags.drop_last(), want);
        let rest = zipped.drop_last().filter(f);
        if flags.last() == want {
            assert(zipped.filter(f) =~= rest.push(zipped.last()));
            assert(zipped.filter(f).map_values(g) =~= rest.map_values(g).push(items.last()));
        }
    } else {
        assert(zipped.filter(f).map_values(g) =~= seq![]);
    }
}

proof fn lemma_flags<T>(items: Seq<T>, a: Seq<bool>, b: Seq<bool>, want: bool)
    requires
        items.len() <= a.len(),
        items.len() <= b.len(),
        forall|i: int| 0 <= i < items.len() ==> #[trigger] a[i] == b[i],
    ensures
        picked(items, a, want) == picked(items, b, want),
    decreases items.len(),
{
    if items.len() > 0 {
        let last = items.len() - 1;
        assert(a[last] == b[last]);
        lemma_flags(items.drop_last(), a, b, want);
    }
}

/// Recording a session drops every earlier one of the same user and the same service,
/// leaves all others in their order, and puts the new one behind them.
pub proof fn law_upsert_spares_other_pairs(sessions: Seq<SessionView>, session: SessionView)
    ensures
        upserted(sessions, session) == sessions.filter(
            |s: SessionView| s.user != session.user || s.service != session.service,
        ).push(session),
    decreases sessions.len(),
{
    let f = |s: SessionView| s.user != session.user || s.service != session.service;
    let g = of_another_pair(session.user, session.service);
    lemma_same_choice(sessions, g, f);
}

proof fn lemma_same_choice(
    sessions: Seq<SessionView>,
    g: spec_fn(SessionView) -> bool,
    f: spec_fn(SessionView) -> bool,
)
    requires
        forall|s: SessionView| #[trigger] g(s) == f(s),
    ensures
        kept(sessions, g) == sessions.filter(f),
    decreases sessions.len(),
{
    reveal(Seq::filter);
    if sessions.len() > 0 {
        lemma_same_choice(sessions.drop_last(), g, f);
        assert(g(sessions.last()) == f(sessions.last()));
    }
}

/// The sessions of a user are those recorded under that very name, in their order.
pub proof fn law_sessions_of_a_user(state: State, user: &str, r: Vec<&Session>)
    requires
        call_ensures(State::for_user, (&state, user), r),
    ensures
        r@.map_values(|s: &Session| s@) == state@.filter(|s: SessionView| s.user == user@),
{
    lemma_same_choice(state@, of_user(user@), |s: SessionView| s.user == user@);
}

/// The owner of a forwarded port is the first session of the user that has the port
/// among its own; without one there is no such session.
pub proof fn law_owner_is_the_first_to_claim(
    state: State,
    user: &str,
    port: u16,
    r: Option<&Session>,
)
    requires
        call_ensures(State::forward_owner, (&state, user, port), r),
    ensures
        match r {
            Some(s) => exists|i: int|
                {
                    &&& 0 <= i < state@.len()
                    &&& #[trigger] state@[i] == s@
                    &&& s@.user == user@
                    &&& s@.forward_local_ports.contains(port)
                    &&& forall|j: int|
                        0 <= j < i ==> (#[trigger] state@[j]).user != user@
                            || !state@[j].forward_local_ports.contains(port)
                },
            None => forall|j: int|
                0 <= j < state@.len() ==> (#[trigger] state@[j]).user != user@
                    || !state@[j].forward_local_ports.contains(port),
        },
{
    lemma_first_owner(state@, user@, port);
}

pub(crate) proof fn lemma_first_owner(sessions: Seq<SessionView>, user: Seq<char>, port: u16)
    ensures
        match owner_of(sessions, user, port) {
            Some(s) => exists|i: int|
                {
                    &&& 0 <= i < sessions.len()
                    &&& #[trigger] sessions[i] == s
                    &&& s.user == user
                    &&& s.forward_local_ports.contains(port)
                    &&& forall|j: int|
                        0 <= j < i ==> (#[trigger] sessions[j]).user != user
                            || !sessions[j].forward_local_ports.contains(port)
                },
            None => forall|j: int|
                0 <= j < sessions.len() ==> (#[trigger] sessions[j]).user != user
                    || !sessions[j].forward_local_ports.contains(port),
        },
    decreases sessions.len(),
{
    if sessions.len() > 0 {
        let rest = sessions.drop_first();
        lemma_first_owner(rest, user, port);
        if owns(sessions[0], user, port) {
            assert(sessions[0] == owner_of(sessions, user, port)->0);
        } else {
            match owner_of(rest, user, port) {
                Some(s) => {
                    let i = choose|i: int|
                        {
                            &&& 0 <= i < rest.len()
                            &&& #[trigger] rest[i] == s
                            &&& s.user == user
                            &&& s.forward_local_ports.contains(port)
                            &&& forall|j: int|
                                0 <= j < i ==> (#[trigger] rest[j]).user != user
                                    || !rest[j].forward_local_ports.contains(port)
                        };
                    assert(sessions[i + 1] == s);
                    assert forall|j: int| 0 <= j < i + 1 implies (#[trigger] sessions[j]).user
                        != user || !sessions[j].forward_local_ports.contains(port) by {
                        if j > 0 {
                            assert(sessions[j] == rest[j - 1]);
                        }
                    }
                },
                None => {
                    assert forall|j: int| 0 <= j < sessions.len() implies (
                    #[trigger] sessions[j]).user != user
                        || !sessions[j].forward_local_ports.contains(port) by {
                        if j > 0 {
                            assert(sessions[j] == rest[j - 1]);
                        }
                    }
                },
            }
        }
    }
}

/// The state file is `state.json` in the directory that is given for it, else in
/// `.ephemwork` below the home directory.
pub proof fn law_state_file(dir: Option<String>, home: Option<String>, r: Option<String>)
    requires
        call_ensures(default_state_path, (dir, home), r),
    ensures
        match (dir, home) {
            (Some(d), _) => r is Some && (d@.len() > 0 && d@.last() != '/' ==> r->0@ == d@
                + "/state.json"@),
            (None, Some(h)) => r is Some && (h@.len() > 0 && h@.last() != '/' ==> r->0@ == h@
                + "/.ephemwork/state.json"@),
            (None, None) => r is None,
        },
{
    reveal_strlit("/");
    reveal_strlit("state.json");
    reveal_strlit(".ephemwork");
    reveal_strlit("/state.json");
    reveal_strlit("/.ephemwork/state.json");
    if let Some(path) = r {
        match (dir, home) {
            (Some(d), _) => {
                if d@.len() > 0 && d@.last() != '/' {
                    assert(path@ =~= d@ + "/state.json"@);
                }
            },
            (None, Some(h)) => {
                if h@.len() > 0 && h@.last() != '/' {
                    let below = files::below(h@, ".ephemwork"@);
                    assert(below.last() == 'k');
                    assert(path@ =~= h@ + "/.ephemwork/state.json"@);
                }
            },
            _ => {},
        }
    }
}

/// A session that is put into a state stands last in it, and every other of another user
/// or another service stays where it was.
pub proof fn law_state_takes_a_session(st: &mut State, session: Session)
    requires
        call_ensures(State::upsert, (st, session), ()),
    ensures
        final(st)@ == old(st)@.filter(
            |s: SessionView| s.user != session@.user || s.service != session@.service,
        ).push(session@),
{
    law_upsert_spares_other_pairs(old(st)@, session@);
}

/// The items whose flag is this one, in their order.
pub open spec fn flagged<T>(items: Seq<T>, flags: Seq<bool>, flag: bool) -> Seq<T> {
    items.zip_with(flags).filter(|p: (T, bool)| p.1 == flag).map_values(|p: (T, bool)| p.0)
}

/// What is removed from a state is what the condition holds of, and the rest stays; both
/// in their order.
pub proof fn law_removed_where_it_holds<F: Fn(&Session) -> bool>(
    st: &mut State,
    pred: F,
    r: Vec<Session>,
)
    requires
        call_ensures(State::remove_where, (st, pred), r),
    ensures
        exists|flags: Seq<bool>|
            {
                &&& flags.len() == old(st).sessions@.len()
                &&& forall|i: int|
                    0 <= i < flags.len() ==> pred.ensures(
                        (&old(st).sessions@[i],),
                        #[trigger] flags[i],
                    )
                &&& r@ == #[trigger] flagged(old(st).sessions@, flags, true)
                &&& final(st).sessions@ == flagged(old(st).sessions@, flags, false)
            },
{
    let flags = choose|flags: Seq<bool>|
        {
            &&& flags.len() == old(st).sessions@.len()
            &&& forall|i: int|
                0 <= i < flags.len() ==> pred.ensures(
                    (&old(st).sessions@[i],),
                    #[trigger] flags[i],
                )
            &&& r@ == #[trigger] picked(old(st).sessions@, flags, true)
            &&& final(st).sessions@ == picked(old(st).sessions@, flags, false)
        };
    law_picked_by_its_flags(old(st).sessions@, flags, true);
    law_picked_by_its_flags(old(st).sessions@, flags, false);
    assert(r@ == flagged(old(st).sessions@, flags, true));
}

/// A time is one of the calendar from the year -262143 to the year 262142, with less than a
/// second of nanoseconds, or less than two in the last second of a minute.
pub proof fn law_times_of_the_calendar(secs: i64, nanos: u32, r: Option<Timestamp>)
    requires
        call_ensures(Timestamp::new, (secs, nanos), r),
    ensures
        r is Some <==> -8334601228800 <= secs <= 8210266876799 && (nanos < 1000000000 || (nanos
            < 2000000000 && secs % 60 == 59)),
        r matches Some(t) ==> t@ == (secs, nanos),
{
}

} // verus!

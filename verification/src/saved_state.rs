//! The state file: the sessions of the local machine as JSON.

use vstd::prelude::*;
use crate::common;
use crate::files;
use crate::files::{FileRead, Intake, LoadError};
use crate::state;
use crate::state::{Session, SessionView, State};
use crate::text;

verus! {

/// The numbers of a list, a line each.
pub open spec fn ports_json(ports: Seq<u16>) -> Seq<char> {
    if ports.len() == 0 {
        "[]"@
    } else {
        "[\n        "@ + text::joined(
            ports.map_values(|p: u16| text::decimal(p as nat)),
            ",\n        "@,
        ) + "\n      ]"@
    }
}

/// A number, or `null`.
pub open spec fn pid_json(pid: Option<u32>) -> Seq<char> {
    match pid {
        Some(p) => text::decimal(p as nat),
        None => "null"@,
    }
}

/// The text of a session in the state file.
pub open spec fn session_json(s: SessionView) -> Seq<char> {
    "    {\n      \"user\": "@ + common::json_text(s.user) + ",\n      \"service\": "@
        + common::json_text(s.service) + ",\n      \"started_at\": "@ + common::json_text(
        state::utc_text(s.started_at.0, s.started_at.1),
    ) + ",\n      \"local_port\": "@ + text::decimal(s.local_port as nat)
        + ",\n      \"remote_port\": "@ + text::decimal(s.remote_port as nat)
        + ",\n      \"pid\": "@ + pid_json(s.pid) + ",\n      \"forward_local_ports\": "@
        + ports_json(s.forward_local_ports) + "\n    }"@
}

/// The text of the state file.
pub open spec fn state_json(sessions: Seq<SessionView>) -> Seq<char> {
    if sessions.len() == 0 {
        "{\n  \"sessions\": []\n}"@
    } else {
        "{\n  \"sessions\": [\n"@ + text::joined(
            sessions.map_values(|s: SessionView| session_json(s)),
            ",\n"@,
        ) + "\n  ]\n}"@
    }
}

/// The calendar has the times of all sessions.
pub open spec fn timely(sessions: Seq<SessionView>) -> bool {
    forall|i: int|
        0 <= i < sessions.len() ==> state::in_calendar(
            (#[trigger] sessions[i]).started_at.0,
            sessions[i].started_at.1,
        )
}

/// The text is that of a state file with these sessions.
pub open spec fn saved(text: Seq<char>, sessions: Seq<SessionView>) -> bool {
    timely(sessions) && text == state_json(sessions)
}

/// The parser reads what was saved as it was saved.
pub open spec fn reads_back<F: Fn(&String) -> Result<State, String>>(parse: F) -> bool {
    forall|s: String, sessions: Seq<SessionView>, r: Result<State, String>|
        #[trigger] saved(s@, sessions) && #[trigger] parse.ensures((&s,), r) ==> (r matches Ok(st)
            && st@ == sessions)
}

/// The text of a state file is not blank.
proof fn lemma_saved_is_not_blank(sessions: Seq<SessionView>)
    ensures
        !text::is_blank(state_json(sessions)),
{
    reveal_strlit("{\n  \"sessions\": []\n}");
    reveal_strlit("{\n  \"sessions\": [\n");
    assert(state_json(sessions)[0] == '{');
    assert(!text::is_white('{'));
}

/// A list of ports as JSON.
fn ports_to_json(ports: &Vec<u16>) -> (r: String)
    ensures
        r@ == ports_json(ports@),
{
    if ports.len() == 0 {
        return "[]".to_owned();
    }
    let ghost lines = ports@.map_values(|p: u16| text::decimal(p as nat));
    let mut parts: Vec<String> = Vec::new();
    let mut i: usize = 0;
    assert(text::texts(parts@) =~= lines.take(0));
    while i < ports.len()
        invariant
            i <= ports@.len(),
            lines == ports@.map_values(|p: u16| text::decimal(p as nat)),
            text::texts(parts@) == lines.take(i as int),
        decreases ports@.len() - i,
    {
        let ghost before = parts@;
        let mut part = String::new();
        text::push_decimal(&mut part, ports[i] as u64);
        assert(part@ =~= lines[i as int]);
        parts.push(part);
        assert(text::texts(parts@) =~= text::texts(before).push(part@));
        assert(lines.take(i + 1) =~= lines.take(i as int).push(lines[i as int]));
        i = i + 1;
    }
    assert(lines.take(i as int) =~= lines);
    let mut out = "[\n        ".to_owned();
    out.append(text::join(&parts, ",\n        ").as_str());
    out.append("\n      ]");
    out
}

/// A session as it stands in the state file.
fn session_to_json(s: &Session) -> (r: String)
    ensures
        r@ == session_json(s@),
        state::in_calendar(s@.started_at.0, s@.started_at.1),
{
    let mut out = "    {\n      \"user\": ".to_owned();
    out.append(common::json_string(s.user.as_str()).as_str());
    out.append(",\n      \"service\": ");
    out.append(common::json_string(s.service.as_str()).as_str());
    out.append(",\n      \"started_at\": ");
    out.append(common::json_string(s.started_at.to_text().as_str()).as_str());
    out.append(",\n      \"local_port\": ");
    text::push_decimal(&mut out, s.local_port as u64);
    out.append(",\n      \"remote_port\": ");
    text::push_decimal(&mut out, s.remote_port as u64);
    out.append(",\n      \"pid\": ");
    match s.pid {
        Some(pid) => text::push_decimal(&mut out, pid as u64),
        None => out.append("null"),
    }
    out.append(",\n      \"forward_local_ports\": ");
    out.append(ports_to_json(&s.forward_local_ports).as_str());
    out.append("\n    }");
    assert(out@ =~= session_json(s@));
    out
}

impl State {
    /// The state as it is saved.
    pub fn to_json(&self) -> (r: String)
        ensures
            saved(r@, self@),
    {
        if self.sessions.len() == 0 {
            return "{\n  \"sessions\": []\n}".to_owned();
        }
        let ghost lines = self@.map_values(|s: SessionView| session_json(s));
        let mut parts: Vec<String> = Vec::new();
        let mut i: usize = 0;
        assert(text::texts(parts@) =~= lines.take(0));
        while i < self.sessions.len()
            invariant
                i <= self.sessions@.len(),
                lines == self@.map_values(|s: SessionView| session_json(s)),
                text::texts(parts@) == lines.take(i as int),
                forall|j: int|
                    0 <= j < i ==> state::in_calendar(
                        (#[trigger] self@[j]).started_at.0,
                        self@[j].started_at.1,
                    ),
            decreases self.sessions@.len() - i,
        {
            let ghost before = parts@;
            let part = session_to_json(&self.sessions[i]);
            assert(self@[i as int] == self.sessions@[i as int]@);
            parts.push(part);
            assert(text::texts(parts@) =~= text::texts(before).push(part@));
            assert(lines.take(i + 1) =~= lines.take(i as int).push(lines[i as int]));
            i = i + 1;
        }
        assert(lines.take(i as int) =~= lines);
        let mut out = "{\n  \"sessions\": [\n".to_owned();
        out.append(text::join(&parts, ",\n").as_str());
        out.append("\n  ]\n}");
        out
    }

    /// State out of what reading its file gave. A missing file yields an empty
    /// `State` so first runs Just Work. A malformed file is an error so we
    /// don't silently lose active sessions. The parser turns the text of the
    /// file into the state that stands there as JSON, or says why it cannot; with
    /// one that reads back what was saved, a state that was saved is loaded as it
    /// was.
    pub fn load(
        path: &str,
        read: FileRead,
        parse: impl Fn(&String) -> Result<State, String>,
    ) -> (r: Result<Self, LoadError>)
        requires
            forall|s: String| #[trigger] parse.requires((&s,)),
        ensures
            exists|intake: Intake|
                {
                    &&& #[trigger] files::taken_in("state file"@, path@, read, intake)
                    &&& match intake {
                        Intake::Fresh => r matches Ok(s) && s@ == Seq::<SessionView>::empty(),
                        Intake::Fail(e) => r == Err::<State, LoadError>(e),
                        Intake::Parse(s) => match r {
                            Ok(state) => parse.ensures((&s,), Ok(state)),
                            Err(e) => e matches LoadError::Parsing { what, path: p, cause } && what@
                                == "state file"@ && p@ == path@ && parse.ensures(
                                (&s,),
                                Err(cause),
                            ),
                        },
                    }
                },
            reads_back(parse) ==> forall|s: String, sessions: Seq<SessionView>|
                read == FileRead::Contents(s) && #[trigger] saved(s@, sessions) ==> (
                r matches Ok(st) && st@ == sessions),
    {
        let ghost given = read;
        let intake = files::take_in("state file", path, read);
        assert(files::taken_in("state file"@, path@, given, intake));
        proof {
            assert forall|s: String, sessions: Seq<SessionView>|
                given == FileRead::Contents(s) && #[trigger] saved(
                    s@,
                    sessions,
                ) implies intake == Intake::Parse(s) by {
                lemma_saved_is_not_blank(sessions);
            }
        }
        match intake {
            Intake::Fresh => Ok(State::default()),
            Intake::Fail(e) => Err(e),
            Intake::Parse(s) => match parse(&s) {
                Ok(state) => Ok(state),
                Err(cause) => Err(
                    LoadError::Parsing { what: "state file", path: path.to_owned(), cause },
                ),
            },
        }
    }
}

/// A state whose file is not there, or blank, is empty; one whose file holds anything is
/// what that reads as, and a file that cannot be read or understood is an error.
pub proof fn law_state_is_loaded<F: Fn(&String) -> Result<State, String>>(
    path: &str,
    read: FileRead,
    parse: F,
    r: Result<State, LoadError>,
)
    requires
        call_ensures(State::load, (path, read, parse), r),
    ensures
        match read {
            FileRead::NotFound => r matches Ok(s) && s@.len() == 0,
            FileRead::Failed(e) => r is Err,
            FileRead::Contents(s) => if exists|i: int|
                0 <= i < s@.len() && !text::is_white(#[trigger] s@[i]) {
                match r {
                    Ok(st) => parse.ensures((&s,), Ok(st)),
                    Err(LoadError::Parsing { path: p, cause, .. }) => p@ == path@ && parse.ensures(
                        (&s,),
                        Err(cause),
                    ),
                    Err(_) => false,
                }
            } else {
                r matches Ok(st) && st@.len() == 0
            },
        },
{
}

} // verus!

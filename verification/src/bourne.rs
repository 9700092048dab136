//! Comments for the session that works in a directory, by way of a Bourne
//! Board that runs on the same machine.

use serde_json::Value;
use vstd::prelude::*;

use crate::json::{
    elements, json_member_text, json_of, json_value, json_values, member, member_text, parse, string,
    write_member, Json,
};
use crate::text::{concat, same_text};

verus! {

/// Where the sessions are listed.
pub const SESSIONS_URL: &'static str = "http://localhost:4747/api/sessions";

/// Where the input of a session goes, before a slash and its id.
pub const INPUT_URL_BASE: &'static str = "http://localhost:4748/input";

// ---- what can go wrong ----

/// A comment that could not be sent.
#[derive(Debug)]
pub enum BourneError {
    /// Nothing answers where the sessions are listed.
    NotRunning,
    /// The list of sessions could not be had, for this reason.
    NoList(String),
    /// The list of sessions is no list.
    UnexpectedResponse,
    /// No session works in the directory.
    NoSession,
    /// The comment was not taken, for this reason.
    NotSent(String),
    /// The session has no terminal that runs.
    PtyNotRunning,
}

/// The mathematical reading of a [`BourneError`].
pub enum Trouble {
    NotRunning,
    NoList(Seq<char>),
    UnexpectedResponse,
    NoSession,
    NotSent(Seq<char>),
    PtyNotRunning,
}

impl View for BourneError {
    type V = Trouble;

    open spec fn view(&self) -> Trouble {
        match *self {
            BourneError::NotRunning => Trouble::NotRunning,
            BourneError::NoList(s) => Trouble::NoList(s@),
            BourneError::UnexpectedResponse => Trouble::UnexpectedResponse,
            BourneError::NoSession => Trouble::NoSession,
            BourneError::NotSent(s) => Trouble::NotSent(s@),
            BourneError::PtyNotRunning => Trouble::PtyNotRunning,
        }
    }
}

/// What the user is told of it; `agent` is the name of what works in a session.
pub open spec fn trouble_text(t: Trouble, agent: Seq<char>) -> Seq<char> {
    match t {
        Trouble::NotRunning => "Bourne Board not running"@,
        Trouble::NoList(s) => s,
        Trouble::UnexpectedResponse => "Unexpected sessions response"@,
        Trouble::NoSession => "No "@ + agent + " session found for this directory"@,
        Trouble::NotSent(s) => "Failed to send comment: "@ + s,
        Trouble::PtyNotRunning => "Session PTY not running"@,
    }
}

impl BourneError {
    /// What the user is told of it; `agent` is the name of what works in a
    /// session.
    pub fn message(&self, agent: &str) -> (r: String)
        ensures
            r@ == trouble_text(self@, agent@),
    {
        match self {
            BourneError::NotRunning => "Bourne Board not running".to_string(),
            BourneError::NoList(s) => s.clone(),
            BourneError::UnexpectedResponse => "Unexpected sessions response".to_string(),
            BourneError::NoSession => concat(
                &concat("No ", agent),
                " session found for this directory",
            ),
            BourneError::NotSent(s) => concat("Failed to send comment: ", s),
            BourneError::PtyNotRunning => "Session PTY not running".to_string(),
        }
    }
}

// ---- finding the session ----

/// What came of asking for the sessions.
pub enum Reply {
    /// Nothing answered.
    Unreachable,
    /// The answer was an error.
    Refused(String),
    /// The answer could not be read.
    Unreadable(String),
    /// The answer.
    Body(String),
}

/// The mathematical reading of a [`Reply`].
pub enum Answer {
    Unreachable,
    Refused(Seq<char>),
    Unreadable(Seq<char>),
    Body(Seq<char>),
}

impl View for Reply {
    type V = Answer;

    open spec fn view(&self) -> Answer {
        match *self {
            Reply::Unreachable => Answer::Unreachable,
            Reply::Refused(s) => Answer::Refused(s@),
            Reply::Unreadable(s) => Answer::Unreadable(s@),
            Reply::Body(s) => Answer::Body(s@),
        }
    }
}

/// What the list says of a session, where it says it in strings.
pub struct Session {
    pub directory: Option<String>,
    pub id: Option<String>,
}

/// The mathematical reading of a [`Session`].
pub struct Entry {
    pub directory: Option<Seq<char>>,
    pub id: Option<Seq<char>>,
}

impl View for Session {
    type V = Entry;

    open spec fn view(&self) -> Entry {
        Entry { directory: self.directory.deep_view(), id: self.id.deep_view() }
    }
}

/// What a list of sessions stands for.
pub open spec fn entries(sessions: Seq<Session>) -> Seq<Entry> {
    Seq::new(sessions.len(), |i: int| sessions[i]@)
}

/// The id of the first session that has one and works in the directory.
pub open spec fn picked(sessions: Seq<Entry>, directory: Seq<char>) -> Option<Seq<char>>
    decreases sessions.len(),
{
    if sessions.len() == 0 {
        None
    } else {
        match picked(sessions.drop_last(), directory) {
            Some(id) => Some(id),
            None => if sessions.last().directory == Some(directory) {
                sessions.last().id
            } else {
                None
            },
        }
    }
}

/// What a list of JSON values says of sessions.
pub open spec fn read_entries(list: Seq<Json>) -> Seq<Entry> {
    Seq::new(
        list.len(),
        |i: int|
            Entry {
                directory: member_text(list[i], "directory"@),
                id: member_text(list[i], "id"@),
            },
    )
}

/// The session that works in a directory, from what came of asking.
pub open spec fn found(directory: Seq<char>, answer: Answer) -> Result<Option<Seq<char>>, Trouble> {
    match answer {
        Answer::Unreachable => Err(Trouble::NotRunning),
        Answer::Refused(s) => Err(Trouble::NoList(s)),
        Answer::Unreadable(s) => Err(Trouble::NoList(s)),
        Answer::Body(text) => match json_of(text) {
            Err(message) => Err(Trouble::NoList(message)),
            Ok(Json::List(list)) => Ok(picked(read_entries(list), directory)),
            Ok(_) => Err(Trouble::UnexpectedResponse),
        },
    }
}

proof fn lemma_picked_early(sessions: Seq<Entry>, directory: Seq<char>, k: int)
    requires
        0 <= k <= sessions.len(),
        picked(sessions.take(k), directory) is Some,
    ensures
        picked(sessions, directory) == picked(sessions.take(k), directory),
    decreases sessions.len(),
{
    if k == sessions.len() {
        assert(sessions.take(k) =~= sessions);
    } else {
        assert(sessions.drop_last().take(k) =~= sessions.take(k));
        lemma_picked_early(sessions.drop_last(), directory, k);
    }
}

/// The id of the first session that has one and works in the directory.
pub fn pick_session(sessions: &Vec<Session>, directory: &str) -> (r: Option<String>)
    ensures
        r.deep_view() == picked(entries(sessions@), directory@),
{
    let ghost all = entries(sessions@);
    let mut i: usize = 0;
    assert(all.take(0) =~= Seq::<Entry>::empty());
    while i < sessions.len()
        invariant
            i <= sessions@.len(),
            all == entries(sessions@),
            picked(all.take(i as int), directory@) is None,
        decreases sessions@.len() - i,
    {
        let session: &Session = &sessions[i];
        proof {
            assert(all.take(i + 1).drop_last() =~= all.take(i as int));
            assert(all.take(i + 1).last() == session@);
        }
        if let Some(dir) = &session.directory {
            if same_text(dir, directory) {
                if let Some(id) = &session.id {
                    proof {
                        lemma_picked_early(all, directory@, i + 1);
                    }
                    return Some(id.clone());
                }
            }
        }
        i = i + 1;
    }
    assert(all.take(i as int) =~= all);
    None
}

/// The string under a key of a JSON value.
fn text_under(v: &Value, key: &str) -> (r: Option<String>)
    ensures
        r.deep_view() == member_text(json_value(*v), key@),
{
    match member(v, key) {
        Some(m) => match string(m) {
            Some(s) => Some(s.to_string()),
            None => None,
        },
        None => None,
    }
}

fn read_sessions(list: &Vec<Value>) -> (r: Vec<Session>)
    ensures
        entries(r@) == read_entries(json_values(list@)),
{
    let mut r: Vec<Session> = Vec::new();
    let mut i: usize = 0;
    while i < list.len()
        invariant
            i <= list@.len(),
            r@.len() == i,
            forall|j: int|
                0 <= j < i ==> (#[trigger] r@[j])@ == read_entries(json_values(list@))[j],
        decreases list@.len() - i,
    {
        r.push(
            Session { directory: text_under(&list[i], "directory"), id: text_under(&list[i], "id") },
        );
        i = i + 1;
    }
    assert(entries(r@) =~= read_entries(json_values(list@)));
    r
}

/// Find a Bourne Board session whose directory matches the given path, from
/// what came of asking for [`SESSIONS_URL`]. Returns the session id if found.
pub fn find_session(directory: &str, reply: &Reply) -> (r: Result<Option<String>, BourneError>)
    ensures
        found(directory@, reply@) == (match r {
            Ok(id) => Ok(id.deep_view()),
            Err(e) => Err(e@),
        }),
{
    match reply {
        Reply::Unreachable => Err(BourneError::NotRunning),
        Reply::Refused(s) => Err(BourneError::NoList(s.clone())),
        Reply::Unreadable(s) => Err(BourneError::NoList(s.clone())),
        Reply::Body(text) => match parse(text) {
            Err(message) => Err(BourneError::NoList(message)),
            Ok(body) => match elements(&body) {
                None => Err(BourneError::UnexpectedResponse),
                Some(list) => Ok(pick_session(&read_sessions(list), directory)),
            },
        },
    }
}

// ---- sending ----

/// What to post, and where, as JSON.
pub struct Request {
    pub url: String,
    pub body: String,
}

/// What came of posting.
pub enum Delivery {
    /// It failed, for this reason.
    Failed(String),
    /// It was answered with this status.
    Answered(u16),
}

/// The address of a session's input.
pub open spec fn input_url(session_id: Seq<char>) -> Seq<char> {
    INPUT_URL_BASE@ + "/"@ + session_id
}

/// What the post of a text looks like.
pub open spec fn is_input(request: Request, session_id: Seq<char>, text: Seq<char>) -> bool {
    &&& request.url@ == input_url(session_id)
    &&& request.body@ == json_member_text("text"@, text)
    &&& json_of(request.body@) matches Ok(j) && member_text(j, "text"@) == Some(text)
}

/// The post that types a text into a session.
pub fn session_input(session_id: &str, text: &str) -> (r: Request)
    ensures
        is_input(r, session_id@, text@),
{
    let mut url: String = INPUT_URL_BASE.to_string();
    url.append("/");
    url.append(session_id);
    Request { url, body: write_member("text", text) }
}

/// Whether the text that was posted to a session arrived.
pub fn send_to_session(delivery: &Delivery) -> (r: Result<(), BourneError>)
    ensures
        match *delivery {
            Delivery::Failed(reason) => r matches Err(e) && e@ == Trouble::NotSent(reason@),
            Delivery::Answered(status) => if status == 404 {
                r matches Err(e) && e@ == Trouble::PtyNotRunning
            } else {
                r is Ok
            },
        },
{
    match delivery {
        Delivery::Failed(reason) => Err(BourneError::NotSent(reason.clone())),
        Delivery::Answered(status) => if *status == 404 {
            Err(BourneError::PtyNotRunning)
        } else {
            Ok(())
        },
    }
}

/// The post that sends a comment to the session that works in the given
/// directory, from what came of asking for [`SESSIONS_URL`]. What comes of it
/// is for [`send_to_session`].
pub fn send_comment(directory: &str, text: &str, reply: &Reply) -> (r: Result<
    Request,
    BourneError,
>)
    ensures
        match found(directory@, reply@) {
            Err(t) => r matches Err(e) && e@ == t,
            Ok(None) => r matches Err(e) && e@ == Trouble::NoSession,
            Ok(Some(id)) => r matches Ok(request) && is_input(request, id, text@),
        },
{
    match find_session(directory, reply) {
        Err(e) => Err(e),
        Ok(None) => Err(BourneError::NoSession),
        Ok(Some(id)) => Ok(session_input(&id, text)),
    }
}

/// A session that is found works in the directory, and no session before it
/// that works there has an id. None is found only if none has both.
pub proof fn first_session_is_picked(sessions: Seq<Entry>, directory: Seq<char>)
    ensures
        match picked(sessions, directory) {
            Some(id) => exists|i: int|
                #![trigger sessions[i]]
                0 <= i < sessions.len() && sessions[i].directory == Some(directory)
                    && sessions[i].id == Some(id) && forall|j: int|
                    0 <= j < i ==> (#[trigger] sessions[j]).directory != Some(directory)
                        || sessions[j].id is None,
            None => forall|j: int|
                0 <= j < sessions.len() ==> (#[trigger] sessions[j]).directory != Some(directory)
                    || sessions[j].id is None,
        },
    decreases sessions.len(),
{
    if sessions.len() > 0 {
        let front = sessions.drop_last();
        first_session_is_picked(front, directory);
        assert forall|j: int| 0 <= j < front.len() implies #[trigger] sessions[j] == front[j] by {}
        match picked(front, directory) {
            Some(id) => {
                let i = choose|i: int|
                    #![trigger front[i]]
                    0 <= i < front.len() && front[i].directory == Some(directory) && front[i].id
                        == Some(id) && forall|j: int|
                        0 <= j < i ==> (#[trigger] front[j]).directory != Some(directory)
                            || front[j].id is None;
                assert(sessions[i] == front[i]);
            },
            None => {
                assert(sessions.last() == sessions[sessions.len() - 1]);
            },
        }
    }
}

} // verus!

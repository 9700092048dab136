//! Which session a comment goes to, and how.

use vstd::prelude::*;

use crate::bourne::{
    entries, found, input_url, is_input, read_entries, trouble_text, Answer, Request, Session,
    Trouble, INPUT_URL_BASE, SESSIONS_URL,
};
use crate::json::{json_of, member_text, Json};

verus! {

/// The sessions are asked for, and typed into, on this machine.
pub proof fn addresses_are_local(id: Seq<char>)
    ensures
        SESSIONS_URL@ == "http://localhost:4747/api/sessions"@,
        input_url(id) == "http://localhost:4748/input/"@ + id,
{
    reveal_strlit("http://localhost:4748/input/");
    reveal_strlit("http://localhost:4748/input");
    reveal_strlit("/");
    assert(INPUT_URL_BASE@ == "http://localhost:4748/input"@);
    assert("http://localhost:4748/input"@ + "/"@ =~= "http://localhost:4748/input/"@);
}

/// The string under a key of an object, and nothing for anything else.
pub proof fn members_are_strings_of_objects(
    members: Map<Seq<char>, Json>,
    key: Seq<char>,
    text: Seq<char>,
    other: Json,
)
    ensures
        members.contains_key(key) && members[key] == Json::Text(text) ==> member_text(
            Json::Object(members),
            key,
        ) == Some(text),
        members.contains_key(key) && !(members[key] is Text) ==> member_text(
            Json::Object(members),
            key,
        ) is None,
        !members.contains_key(key) ==> member_text(Json::Object(members), key) is None,
        !(other is Object) ==> member_text(other, key) is None,
{
}

/// A session is read from the list with its directory and its id.
pub proof fn sessions_are_read_from_the_list(list: Seq<Json>)
    ensures
        read_entries(list).len() == list.len(),
        forall|i: int|
            0 <= i < list.len() ==> (#[trigger] read_entries(list)[i]).directory == member_text(
                list[i],
                "directory"@,
            ) && read_entries(list)[i].id == member_text(list[i], "id"@),
{
}

/// What is known of sessions is known of each of them, in their order.
pub proof fn sessions_are_those_given(sessions: Seq<Session>)
    ensures
        entries(sessions).len() == sessions.len(),
        forall|i: int|
            0 <= i < sessions.len() ==> {
                let e = #[trigger] entries(sessions)[i];
                let s = sessions[i];
                &&& e.directory is Some <==> s.directory is Some
                &&& s.directory is Some ==> e.directory->0 == s.directory->0@
                &&& e.id is Some <==> s.id is Some
                &&& s.id is Some ==> e.id->0 == s.id->0@
            },
{
}

/// A session works in a directory and can be typed into.
pub open spec fn serves(j: Json, directory: Seq<char>) -> bool {
    member_text(j, "directory"@) == Some(directory) && member_text(j, "id"@) is Some
}

/// The session for a directory is the first one in the list that works there
/// and has an id; without one there is none.
pub proof fn first_session_that_serves_is_found(
    directory: Seq<char>,
    text: Seq<char>,
    list: Seq<Json>,
    i: int,
)
    requires
        json_of(text) == Ok::<Json, Seq<char>>(Json::List(list)),
    ensures
        0 <= i < list.len() && serves(list[i], directory) && (forall|j: int|
            0 <= j < i ==> !serves(#[trigger] list[j], directory)) ==> found(
            directory,
            Answer::Body(text),
        ) == Ok::<Option<Seq<char>>, Trouble>(member_text(list[i], "id"@)),
        (forall|j: int| 0 <= j < list.len() ==> !serves(#[trigger] list[j], directory)) ==> found(
            directory,
            Answer::Body(text),
        ) == Ok::<Option<Seq<char>>, Trouble>(None),
{
    let all = read_entries(list);
    crate::bourne::first_session_is_picked(all, directory);
    assert forall|j: int| 0 <= j < list.len() implies (serves(#[trigger] list[j], directory)
        <==> all[j].directory == Some(directory) && all[j].id is Some) by {}
    match crate::bourne::picked(all, directory) {
        Some(id) => {
            let k = choose|k: int|
                #![trigger all[k]]
                0 <= k < all.len() && all[k].directory == Some(directory) && all[k].id == Some(id)
                    && forall|j: int|
                    0 <= j < k ==> (#[trigger] all[j]).directory != Some(directory) || all[j].id
                        is None;
            assert(serves(list[k], directory));
            if 0 <= i < list.len() && serves(list[i], directory) && (forall|j: int|
                0 <= j < i ==> !serves(#[trigger] list[j], directory)) {
                if i < k {
                    assert(all[i].directory != Some(directory) || all[i].id is None);
                }
                assert(!(k < i) && !(i < k));
            }
        },
        None => {
            if 0 <= i < list.len() && serves(list[i], directory) {
                assert(all[i].directory != Some(directory) || all[i].id is None);
            }
        },
    }
}

/// Where there is no list, that is what went wrong, and why.
pub proof fn missing_lists_are_told(
    directory: Seq<char>,
    reason: Seq<char>,
    text: Seq<char>,
    message: Seq<char>,
)
    ensures
        found(directory, Answer::Unreachable) == Err::<Option<Seq<char>>, Trouble>(
            Trouble::NotRunning,
        ),
        found(directory, Answer::Refused(reason)) == Err::<Option<Seq<char>>, Trouble>(
            Trouble::NoList(reason),
        ),
        found(directory, Answer::Unreadable(reason)) == Err::<Option<Seq<char>>, Trouble>(
            Trouble::NoList(reason),
        ),
        json_of(text) == Err::<Json, Seq<char>>(message) ==> found(directory, Answer::Body(text))
            == Err::<Option<Seq<char>>, Trouble>(Trouble::NoList(message)),
        json_of(text) is Ok && !(json_of(text)->Ok_0 is List) ==> found(
            directory,
            Answer::Body(text),
        ) == Err::<Option<Seq<char>>, Trouble>(Trouble::UnexpectedResponse),
{
}

/// What is posted goes to the input of the session, and whoever reads it as
/// JSON finds the text in it.
pub proof fn posts_hold_the_text(request: Request, id: Seq<char>, text: Seq<char>)
    requires
        is_input(request, id, text),
    ensures
        request.url@ == "http://localhost:4748/input/"@ + id,
        json_of(request.body@) is Ok,
        member_text(json_of(request.body@)->Ok_0, "text"@) == Some(text),
{
    addresses_are_local(id);
}

/// What the user is told when a comment is not sent.
pub proof fn troubles_are_told(agent: Seq<char>, reason: Seq<char>)
    ensures
        trouble_text(Trouble::NotRunning, agent) == "Bourne Board not running"@,
        trouble_text(Trouble::NoList(reason), agent) == reason,
        trouble_text(Trouble::UnexpectedResponse, agent) == "Unexpected sessions response"@,
        trouble_text(Trouble::NoSession, agent) == "No "@ + agent
            + " session found for this directory"@,
        trouble_text(Trouble::NotSent(reason), agent) == "Failed to send comment: "@ + reason,
        trouble_text(Trouble::PtyNotRunning, agent) == "Session PTY not running"@,
{
}

} // verus!

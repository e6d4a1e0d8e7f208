//! Completing the stored sessions of a race with the provider's keys.
//!
//! A stored session may lack the key under which the provider knows it. The
//! functions of this module decide whether the provider has to be asked,
//! which stored sessions take a key from which of the provider's sessions,
//! and how complete the stored sessions are in the end.

use crate::records::AggregateError;
use crate::sessions::{map_session_name, session_name};
use crate::text::str_eq;
use vstd::prelude::*;
use vstd::string::StringExecFns;

verus! {

/// A session as the store holds it.
#[derive(Clone, Debug)]
pub struct StoredSession {
    pub session_type: Option<String>,
    pub has_key: bool,
    pub date: Option<String>,
}

/// A session as the provider offers it.
#[derive(Clone, Debug)]
pub struct OfferedSession {
    pub session_name: Option<String>,
    pub session_key: Option<i64>,
    pub meeting_key: Option<i64>,
}

/// The keys that the stored sessions of one type take.
#[derive(Clone, Copy, Debug)]
pub struct SessionUpdate {
    pub session_type: &'static str,
    pub session_key: i64,
    pub meeting_key: i64,
}

/// An update as a value of specifications.
pub struct UpdateView {
    pub session_type: Seq<char>,
    pub session_key: i64,
    pub meeting_key: i64,
}

impl View for SessionUpdate {
    type V = UpdateView;

    open spec fn view(&self) -> UpdateView {
        UpdateView {
            session_type: self.session_type@,
            session_key: self.session_key,
            meeting_key: self.meeting_key,
        }
    }
}

/// The views of updates.
pub open spec fn update_views(updates: Seq<SessionUpdate>) -> Seq<UpdateView> {
    Seq::new(updates.len(), |i: int| updates[i]@)
}

/// How complete the stored sessions of a race are.
#[derive(Clone, Copy, Debug, PartialEq, Eq, Structural)]
pub enum SyncStatus {
    /// Every session has its key.
    Completed,
    /// Some session still lacks its key.
    Partial,
    /// The event lies ahead: the provider has nothing on it yet.
    Scheduled,
}

/// What a first look at the stored sessions of a race calls for.
#[derive(Clone, Debug)]
pub enum FirstLook {
    /// Every session has its key.
    Completed,
    /// Keys are missing and the first session has no date to ask with.
    Scheduled,
    /// Keys are missing: ask the provider for the sessions between the two
    /// dates.
    AskProvider { from: String, to: String },
}

/// The characters of a text that may be missing; none where it is missing.
pub open spec fn chars_or_empty(text: Option<String>) -> Seq<char> {
    match text {
        Some(text) => text@,
        None => Seq::empty(),
    }
}

/// Whether some session of `stored` lacks its key.
pub open spec fn lacks_key(stored: Seq<StoredSession>) -> bool {
    exists|i: int| 0 <= i < stored.len() && !(#[trigger] stored[i]).has_key
}

/// Whether some session of `stored` lacks its key and is of type `wanted`.
pub open spec fn awaits_key(stored: Seq<StoredSession>, wanted: Seq<char>) -> bool {
    exists|i: int|
        0 <= i < stored.len() && !(#[trigger] stored[i]).has_key && stored[i].session_type.is_some()
            && stored[i].session_type.unwrap()@ == wanted
}

/// The update that a session of the provider brings: the provider's name
/// must map to a session type that a stored session without a key has, and
/// the provider must give both keys.
pub open spec fn update_from(stored: Seq<StoredSession>, offered: OfferedSession) -> Option<
    UpdateView,
> {
    match (offered.session_name, offered.session_key, offered.meeting_key) {
        (Some(name), Some(session_key), Some(meeting_key)) => match session_name(name@) {
            Some(session_type) => if awaits_key(stored, session_type) {
                Some(UpdateView { session_type, session_key, meeting_key })
            } else {
                None
            },
            None => None,
        },
        _ => None,
    }
}

/// The updates that the first `count` sessions of the provider bring, in
/// their order.
pub open spec fn updates_from(
    stored: Seq<StoredSession>,
    offered: Seq<OfferedSession>,
    count: int,
) -> Seq<UpdateView>
    decreases count,
{
    if count <= 0 {
        Seq::empty()
    } else {
        match update_from(stored, offered[count - 1]) {
            Some(update) => updates_from(stored, offered, count - 1).push(update),
            None => updates_from(stored, offered, count - 1),
        }
    }
}

/// How complete the stored sessions are once the updates are made.
pub open spec fn status_of(stored: Seq<StoredSession>) -> SyncStatus {
    if lacks_key(stored) {
        SyncStatus::Partial
    } else {
        SyncStatus::Completed
    }
}

/// Whether some session of `stored` lacks its key.
pub fn any_lacks_key(stored: &Vec<StoredSession>) -> (lacking: bool)
    ensures
        lacking == lacks_key(stored@),
{
    let mut i: usize = 0;
    while i < stored.len()
        invariant
            i <= stored.len(),
            forall|j: int| 0 <= j < i ==> (#[trigger] stored[j]).has_key,
        decreases stored.len() - i,
    {
        if !stored[i].has_key {
            return true;
        }
        i += 1;
    }
    false
}

/// Whether some session of `stored` lacks its key and is of type `wanted`.
pub fn any_awaits_key(stored: &Vec<StoredSession>, wanted: &str) -> (waiting: bool)
    ensures
        waiting == awaits_key(stored@, wanted@),
{
    let mut i: usize = 0;
    while i < stored.len()
        invariant
            i <= stored.len(),
            forall|j: int|
                0 <= j < i ==> !(!(#[trigger] stored[j]).has_key && stored[j].session_type.is_some()
                    && stored[j].session_type.unwrap()@ == wanted@),
        decreases stored.len() - i,
    {
        let session = &stored[i];
        if !session.has_key {
            match &session.session_type {
                Some(held) => {
                    if str_eq(held.as_str(), wanted) {
                        return true;
                    }
                },
                None => {},
            }
        }
        i += 1;
    }
    false
}

/// A copy of a text that may be missing; empty where it is missing.
fn text_or_empty(text: &Option<String>) -> (copy: String)
    ensures
        copy@ == chars_or_empty(*text),
{
    match text {
        Some(text) => text.clone(),
        None => String::new(),
    }
}

/// What a first look at the stored sessions of a race calls for. A race
/// without any session is not found. Else all is complete where no key is
/// missing; the event is only scheduled where the first session has no date;
/// and in every other case the provider is asked for the sessions from the
/// date of the first session to that of the last.
pub fn first_look(stored: &Vec<StoredSession>) -> (look: Result<FirstLook, AggregateError>)
    ensures
        stored.len() == 0 <==> look is Err,
        look is Err ==> look->Err_0 == AggregateError::NotFound,
        stored.len() > 0 && !lacks_key(stored@) ==> look->Ok_0 is Completed,
        stored.len() > 0 && lacks_key(stored@) && chars_or_empty(stored[0].date).len() == 0
            ==> look->Ok_0 is Scheduled,
        stored.len() > 0 && lacks_key(stored@) && chars_or_empty(stored[0].date).len() > 0
            ==> look->Ok_0 is AskProvider && look->Ok_0->from@ == chars_or_empty(stored[0].date)
            && look->Ok_0->to@ == chars_or_empty(stored[stored.len() - 1].date),
{
    if stored.len() == 0 {
        return Err(AggregateError::NotFound);
    }
    if !any_lacks_key(stored) {
        return Ok(FirstLook::Completed);
    }
    let from = text_or_empty(&stored[0].date);
    if from.as_str().is_empty() {
        return Ok(FirstLook::Scheduled);
    }
    let to = text_or_empty(&stored[stored.len() - 1].date);
    Ok(FirstLook::AskProvider { from, to })
}

/// The update that a session of the provider brings.
pub fn update_for(stored: &Vec<StoredSession>, offered: &OfferedSession) -> (update: Option<
    SessionUpdate,
>)
    ensures
        match update {
            Some(found) => update_from(stored@, *offered) == Some(found@),
            None => update_from(stored@, *offered).is_none(),
        },
{
    match (&offered.session_name, offered.session_key, offered.meeting_key) {
        (Some(name), Some(session_key), Some(meeting_key)) => {
            match map_session_name(name.as_str()) {
                Some(session_type) => {
                    if any_awaits_key(stored, session_type) {
                        Some(SessionUpdate { session_type, session_key, meeting_key })
                    } else {
                        None
                    }
                },
                None => None,
            }
        },
        _ => None,
    }
}

/// The updates that the sessions of the provider bring, in their order.
pub fn planned_updates(stored: &Vec<StoredSession>, offered: &Vec<OfferedSession>) -> (updates: Vec<
    SessionUpdate,
>)
    ensures
        update_views(updates@) == updates_from(stored@, offered@, offered.len() as int),
{
    let mut updates: Vec<SessionUpdate> = Vec::new();
    let mut i: usize = 0;
    proof {
        assert(update_views(updates@) =~= updates_from(stored@, offered@, 0));
    }
    while i < offered.len()
        invariant
            i <= offered.len(),
            update_views(updates@) == updates_from(stored@, offered@, i as int),
        decreases offered.len() - i,
    {
        let ghost before = updates@;
        match update_for(stored, &offered[i]) {
            Some(update) => {
                updates.push(update);
                proof {
                    assert(update_views(updates@) =~= update_views(before).push(update@));
                }
            },
            None => {},
        }
        i += 1;
    }
    updates
}

/// How complete the stored sessions are once the updates are made.
pub fn final_status(stored: &Vec<StoredSession>) -> (status: SyncStatus)
    ensures
        status == status_of(stored@),
{
    if any_lacks_key(stored) {
        SyncStatus::Partial
    } else {
        SyncStatus::Completed
    }
}

/// The name of a status.
pub open spec fn status_name(status: SyncStatus) -> Seq<char> {
    match status {
        SyncStatus::Completed => "completed"@,
        SyncStatus::Partial => "partial"@,
        SyncStatus::Scheduled => "scheduled"@,
    }
}

impl SyncStatus {
    /// The name of the status.
    pub fn name(&self) -> (name: &'static str)
        ensures
            name@ == status_name(*self),
    {
        match self {
            SyncStatus::Completed => "completed",
            SyncStatus::Partial => "partial",
            SyncStatus::Scheduled => "scheduled",
        }
    }
}

/// The address of the provider's sessions of a year between two dates.
pub open spec fn sessions_address(year: Seq<char>, from: Seq<char>, to: Seq<char>) -> Seq<char> {
    "https://api.openf1.org/v1/sessions?year="@ + year + "&date_start>="@ + from + "&date_end<="@
        + to
}

/// The address of the provider's sessions of a year between two dates.
pub fn sessions_url(year: &str, from: &str, to: &str) -> (address: String)
    ensures
        address@ == sessions_address(year@, from@, to@),
{
    let mut address = String::from_str("https://api.openf1.org/v1/sessions?year=");
    address.append(year);
    address.append("&date_start>=");
    address.append(from);
    address.append("&date_end<=");
    address.append(to);
    address
}

} // verus!

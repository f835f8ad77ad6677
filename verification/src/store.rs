//! The event store: every user's events, in the order they arrived.

use crate::clock::utc_now_rfc3339;
use crate::drift::{assess, lemma_drift_repeatable, DriftReport};
use crate::event::{history_value, Event, EventValue};
use crate::fingerprint::{metadata_value, profile, Profile};
use vstd::prelude::*;

verus! {

/// The events of one user, oldest first.
struct UserLog {
    user_id: String,
    events: Vec<Event>,
}

/// A user together with the number of events stored for that user.
#[derive(Debug)]
pub struct UserCount {
    pub user_id: String,
    pub events: usize,
}

/// Mapping from user to that user's events. A user comes into being with the
/// first event recorded for it, and events are only ever appended.
pub struct Store {
    users: Vec<UserLog>,
}

/// Whether some log belongs to `user`.
spec fn has_user(users: Seq<UserLog>, user: Seq<char>) -> bool {
    exists|i: int| 0 <= i < users.len() && #[trigger] users[i].user_id@ == user
}

/// Position of the log of `user`.
spec fn user_index(users: Seq<UserLog>, user: Seq<char>) -> int {
    choose|i: int| 0 <= i < users.len() && #[trigger] users[i].user_id@ == user
}

/// No two logs belong to the same user.
spec fn distinct_users(users: Seq<UserLog>) -> bool {
    forall|i: int, j: int|
        0 <= i < j < users.len() ==> #[trigger] users[i].user_id@ != #[trigger] users[j].user_id@
}

/// The mapping that a list of logs stands for: each user with a log, and the
/// events of that log.
spec fn logs_value(users: Seq<UserLog>) -> Map<Seq<char>, Seq<EventValue>> {
    Map::new(
        |user: Seq<char>| has_user(users, user),
        |user: Seq<char>| history_value(users[user_index(users, user)].events@),
    )
}

/// The store after `event` has been appended to its user's history.
pub open spec fn recorded(
    store: Map<Seq<char>, Seq<EventValue>>,
    event: EventValue,
) -> Map<Seq<char>, Seq<EventValue>> {
    let earlier = if store.contains_key(event.user_id) {
        store[event.user_id]
    } else {
        Seq::empty()
    };
    store.insert(event.user_id, earlier.push(event))
}

/// Whether `listing` names every user of `store` exactly once, each with the
/// length of its history.
pub open spec fn lists_users(
    listing: Seq<UserCount>,
    store: Map<Seq<char>, Seq<EventValue>>,
) -> bool {
    &&& forall|i: int|
        0 <= i < listing.len() ==> store.contains_key(#[trigger] listing[i].user_id@)
            && store[listing[i].user_id@].len() == listing[i].events
    &&& forall|user: Seq<char>| #[trigger]
        store.contains_key(user) ==> exists|i: int|
            0 <= i < listing.len() && #[trigger] listing[i].user_id@ == user
    &&& forall|i: int, j: int|
        0 <= i < j < listing.len() ==> #[trigger] listing[i].user_id@ != #[trigger] listing[j].user_id@
}

/// Whether `report` answers a drift query for `user`: nothing for an unknown
/// user, and otherwise the report on the user's history.
pub open spec fn drift_answer(
    store: Map<Seq<char>, Seq<EventValue>>,
    user: Seq<char>,
    report: Option<DriftReport>,
) -> bool {
    &&& report.is_some() == store.contains_key(user)
    &&& report matches Some(r) ==> r.reports(store[user])
}

/// Whether `found` answers a fingerprint query for `user`: nothing for an
/// unknown user, and otherwise the profile of the user's history.
pub open spec fn fingerprint_answer(
    store: Map<Seq<char>, Seq<EventValue>>,
    user: Seq<char>,
    found: Option<Profile>,
) -> bool {
    &&& found.is_some() == store.contains_key(user)
    &&& found matches Some(p) ==> p.describes(user, store[user])
}

impl View for Store {
    type V = Map<Seq<char>, Seq<EventValue>>;

    closed spec fn view(&self) -> Map<Seq<char>, Seq<EventValue>> {
        logs_value(self.users@)
    }
}

impl Store {
    #[verifier::type_invariant]
    spec fn well_formed(self) -> bool {
        distinct_users(self.users@)
    }

    /// A store without users.
    pub fn new() -> (store: Store)
        ensures
            store@ == Map::<Seq<char>, Seq<EventValue>>::empty(),
    {
        let store = Store { users: Vec::new() };
        assert(store@ =~= Map::<Seq<char>, Seq<EventValue>>::empty());
        store
    }

    /// Position of the log of `user`, if the store knows the user.
    fn position(&self, user: &str) -> (found: Option<usize>)
        ensures
            match found {
                Some(i) => {
                    &&& i < self.users.len()
                    &&& self.users[i as int].user_id@ == user@
                    &&& self@.contains_key(user@)
                    &&& self@[user@] == history_value(self.users[i as int].events@)
                },
                None => !self@.contains_key(user@) && !has_user(self.users@, user@),
            },
    {
        proof {
            use_type_invariant(self);
        }
        let wanted: String = user.to_owned();
        let mut i: usize = 0;
        while i < self.users.len()
            invariant
                i <= self.users.len(),
                wanted@ == user@,
                forall|j: int| 0 <= j < i ==> self.users[j].user_id@ != user@,
            decreases self.users.len() - i,
        {
            if self.users[i].user_id == wanted {
                proof {
                    use_type_invariant(self);
                    lemma_user_index(self.users@, i as int);
                }
                return Some(i);
            }
            i = i + 1;
        }
        None
    }

    /// Appends `event` to the history of its user, which begins with this
    /// event where the user is new. An event without a timestamp gets `now`.
    pub fn ingest_at(&mut self, event: Event, now: String)
        ensures
            final(self)@ == recorded(old(self)@, event@.stamped(now@)),
    {
        proof {
            use_type_invariant(&*self);
        }
        let event: Event = event.stamp(now);
        let ghost before = self.users@;
        let ghost value = event@;
        let found: Option<usize> = self.position(event.user_id.as_str());
        let mut users: Vec<UserLog> = Vec::new();
        core::mem::swap(&mut self.users, &mut users);
        match found {
            Some(i) => {
                users[i].events.push(event);
                proof {
                    let after = users@;
                    assert(after.len() == before.len());
                    assert(forall|j: int|
                        0 <= j < after.len() ==> #[trigger] after[j].user_id@
                            == before[j].user_id@);
                    assert(forall|j: int|
                        0 <= j < after.len() && j != i ==> #[trigger] after[j].events@
                            == before[j].events@);
                    assert(after[i as int].events@ == before[i as int].events@.push(event));
                    assert(history_value(after[i as int].events@) =~= history_value(
                        before[i as int].events@,
                    ).push(value));
                    lemma_user_index(before, i as int);
                    lemma_view_after_update(
                        before,
                        after,
                        i as int,
                        history_value(after[i as int].events@),
                    );
                }
            },
            None => {
                let user_id: String = event.user_id.clone();
                let mut events: Vec<Event> = Vec::new();
                events.push(event);
                assert(history_value(events@) =~= Seq::<EventValue>::empty().push(value));
                users.push(UserLog { user_id, events });
                proof {
                    lemma_view_after_new_user(
                        before,
                        users@,
                        value.user_id,
                        Seq::<EventValue>::empty().push(value),
                    );
                }
            },
        }
        self.users = users;
    }

    /// Stores `events` as the whole history of `user_id`, in place of any
    /// history the user had. Only restoring a saved store does this.
    pub(crate) fn insert_history(&mut self, user_id: String, events: Vec<Event>)
        ensures
            final(self)@ == old(self)@.insert(user_id@, history_value(events@)),
    {
        proof {
            use_type_invariant(&*self);
        }
        let ghost before = self.users@;
        let ghost history = history_value(events@);
        let found: Option<usize> = self.position(user_id.as_str());
        let mut users: Vec<UserLog> = Vec::new();
        core::mem::swap(&mut self.users, &mut users);
        match found {
            Some(i) => {
                users[i].events = events;
                proof {
                    let after = users@;
                    assert(forall|j: int|
                        0 <= j < after.len() ==> #[trigger] after[j].user_id@
                            == before[j].user_id@);
                    assert(forall|j: int|
                        0 <= j < after.len() && j != i ==> #[trigger] after[j].events@
                            == before[j].events@);
                    lemma_view_after_update(before, after, i as int, history);
                }
            },
            None => {
                users.push(UserLog { user_id, events });
                proof {
                    lemma_view_after_new_user(before, users@, user_id@, history);
                }
            },
        }
        self.users = users;
    }

    /// Records `event`, stamping it with the current UTC time where it has no
    /// timestamp of its own.
    pub fn ingest(&mut self, event: Event)
        ensures
            exists|now: Seq<char>| final(self)@ == recorded(old(self)@, event@.stamped(now)),
            event.ts.is_some() ==> final(self)@ == recorded(old(self)@, event@),
    {
        let now: String = match &event.ts {
            Some(ts) => ts.clone(),
            None => utc_now_rfc3339(),
        };
        self.ingest_at(event, now);
    }

    /// Every user with the number of events stored for it, each user once.
    pub fn profiles(&self) -> (listing: Vec<UserCount>)
        ensures
            lists_users(listing@, self@),
    {
        proof {
            use_type_invariant(self);
        }
        let mut listing: Vec<UserCount> = Vec::new();
        let mut i: usize = 0;
        while i < self.users.len()
            invariant
                i <= self.users.len(),
                listing.len() == i,
                forall|j: int|
                    0 <= j < i ==> #[trigger] listing[j].user_id@ == self.users[j].user_id@
                        && listing[j].events == self.users[j].events.len(),
            decreases self.users.len() - i,
        {
            listing.push(
                UserCount {
                    user_id: self.users[i].user_id.clone(),
                    events: self.users[i].events.len(),
                },
            );
            i = i + 1;
        }
        proof {
            lemma_listing(self.users@, listing@, self@);
        }
        listing
    }

    /// The events of `user`, oldest first; nothing for an unknown user.
    pub fn timeline(&self, user: &str) -> (events: Option<&Vec<Event>>)
        ensures
            events.is_some() == self@.contains_key(user@),
            events matches Some(list) ==> history_value(list@) == self@[user@],
    {
        match self.position(user) {
            Some(i) => Some(&self.users[i].events),
            None => None,
        }
    }

    /// Drift of `user`: the score of the two newest events and its category;
    /// nothing for an unknown user.
    pub fn drift(&self, user: &str) -> (report: Option<DriftReport>)
        ensures
            drift_answer(self@, user@, report),
    {
        match self.timeline(user) {
            Some(events) => Some(assess(events)),
            None => None,
        }
    }

    /// Profile of `user`: tokens and hash of the newest event, stability and
    /// metadata of the whole history; nothing for an unknown user.
    pub fn fingerprint(&self, user: &str) -> (found: Option<Profile>)
        ensures
            fingerprint_answer(self@, user@, found),
    {
        match self.timeline(user) {
            Some(events) => Some(profile(user, events)),
            None => None,
        }
    }
}

/// Recording appends and never rewrites: the new event is the newest of its
/// user, every history that was there is still there as the beginning of what
/// is there now, and no other user's history changes.
pub proof fn lemma_recording_appends(store: Map<Seq<char>, Seq<EventValue>>, event: EventValue)
    ensures
        recorded(store, event).contains_key(event.user_id),
        recorded(store, event)[event.user_id].last() == event,
        forall|user: Seq<char>| #[trigger]
            store.contains_key(user) ==> recorded(store, event).contains_key(user) && store[user]
                == recorded(store, event)[user].subrange(0, store[user].len() as int),
        forall|user: Seq<char>|
            user != event.user_id ==> (#[trigger] recorded(store, event).contains_key(user)
                == store.contains_key(user)) && recorded(store, event)[user] == store[user],
{
    assert forall|user: Seq<char>| #[trigger] store.contains_key(user) implies recorded(
        store,
        event,
    ).contains_key(user) && store[user] == recorded(store, event)[user].subrange(
        0,
        store[user].len() as int,
    ) by {
        assert(store[user] =~= recorded(store, event)[user].subrange(0, store[user].len() as int));
    }
}

/// Two drift queries on one store, with no event recorded in between, give the
/// same answer: both nothing, or reports that agree in every part.
pub proof fn lemma_drift_query_repeatable(
    store: Map<Seq<char>, Seq<EventValue>>,
    user: Seq<char>,
    first: Option<DriftReport>,
    second: Option<DriftReport>,
)
    requires
        drift_answer(store, user, first),
        drift_answer(store, user, second),
    ensures
        first.is_some() == second.is_some(),
        first matches Some(a) ==> (second matches Some(b) ==> a.score == b.score && a.risk
            == b.risk && a.reasons@ == b.reasons@),
{
    if let Some(a) = first {
        if let Some(b) = second {
            lemma_drift_repeatable(a, b, store[user]);
        }
    }
}

/// Two fingerprint queries on one store, with no event recorded in between,
/// give the same answer: both nothing, or profiles that agree in every part.
pub proof fn lemma_fingerprint_query_repeatable(
    store: Map<Seq<char>, Seq<EventValue>>,
    user: Seq<char>,
    first: Option<Profile>,
    second: Option<Profile>,
)
    requires
        fingerprint_answer(store, user, first),
        fingerprint_answer(store, user, second),
    ensures
        first.is_some() == second.is_some(),
        first matches Some(a) ==> (second matches Some(b) ==> a.user_id@ == b.user_id@
            && a.fingerprint@ == b.fingerprint@ && a.tokens.deep_view() == b.tokens.deep_view()
            && a.stability == b.stability && metadata_value(a.history@) == metadata_value(
            b.history@,
        )),
{
}

/// With distinct users, the log at a position is the one found for its user.
proof fn lemma_user_index(users: Seq<UserLog>, i: int)
    requires
        distinct_users(users),
        0 <= i < users.len(),
    ensures
        has_user(users, users[i].user_id@),
        user_index(users, users[i].user_id@) == i,
{
    assert(users[i].user_id@ == users[i].user_id@);
    let k = user_index(users, users[i].user_id@);
    if k < i {
        assert(users[k].user_id@ != users[i].user_id@);
    } else if i < k {
        assert(users[i].user_id@ != users[k].user_id@);
    }
}

/// A change to the events of one log changes the view at that user alone.
proof fn lemma_view_after_update(
    before: Seq<UserLog>,
    after: Seq<UserLog>,
    i: int,
    history: Seq<EventValue>,
)
    requires
        distinct_users(before),
        0 <= i < before.len(),
        after.len() == before.len(),
        forall|j: int| 0 <= j < after.len() ==> #[trigger] after[j].user_id@ == before[j].user_id@,
        forall|j: int|
            0 <= j < after.len() && j != i ==> #[trigger] after[j].events@ == before[j].events@,
        history_value(after[i].events@) == history,
    ensures
        distinct_users(after),
        logs_value(after) == logs_value(before).insert(before[i].user_id@, history),
{
    assert(distinct_users(after)) by {
        assert forall|a: int, b: int| 0 <= a < b < after.len() implies #[trigger] after[a].user_id@
            != #[trigger] after[b].user_id@ by {
            assert(before[a].user_id@ != before[b].user_id@);
        }
    }
    let expected = logs_value(before).insert(before[i].user_id@, history);
    lemma_user_index(before, i);
    lemma_user_index(after, i);
    assert forall|user: Seq<char>| #[trigger]
        logs_value(after).dom().contains(user) == expected.dom().contains(user) by {
        if has_user(after, user) {
            let k = user_index(after, user);
            assert(before[k].user_id@ == user);
        }
        if has_user(before, user) {
            let k = user_index(before, user);
            assert(after[k].user_id@ == user);
        }
    }
    assert forall|user: Seq<char>| #[trigger]
        logs_value(after).dom().contains(user) implies logs_value(after)[user]
        == expected[user] by {
        let k = user_index(after, user);
        lemma_user_index(after, k);
        lemma_user_index(before, k);
    }
    assert(logs_value(after) =~= expected);
}

/// A log for a user not yet known adds that user to the view.
proof fn lemma_view_after_new_user(
    before: Seq<UserLog>,
    after: Seq<UserLog>,
    user: Seq<char>,
    history: Seq<EventValue>,
)
    requires
        distinct_users(before),
        !has_user(before, user),
        after.len() == before.len() + 1,
        forall|j: int| 0 <= j < before.len() ==> #[trigger] after[j] == before[j],
        after[before.len() as int].user_id@ == user,
        history_value(after[before.len() as int].events@) == history,
    ensures
        distinct_users(after),
        logs_value(after) == logs_value(before).insert(user, history),
{
    let n = before.len() as int;
    assert(distinct_users(after)) by {
        assert forall|a: int, b: int| 0 <= a < b < after.len() implies #[trigger] after[a].user_id@
            != #[trigger] after[b].user_id@ by {
            if b < n {
                assert(before[a].user_id@ != before[b].user_id@);
            } else {
                assert(before[a].user_id@ == after[a].user_id@);
            }
        }
    }
    let expected = logs_value(before).insert(user, history);
    lemma_user_index(after, n);
    assert forall|user: Seq<char>| #[trigger]
        logs_value(after).dom().contains(user) == expected.dom().contains(user) by {
        if has_user(after, user) {
            let k = user_index(after, user);
            if k < n {
                assert(before[k].user_id@ == user);
            }
        }
        if has_user(before, user) {
            let k = user_index(before, user);
            assert(after[k].user_id@ == user);
        }
    }
    assert forall|user: Seq<char>| #[trigger]
        logs_value(after).dom().contains(user) implies logs_value(after)[user]
        == expected[user] by {
        let k = user_index(after, user);
        lemma_user_index(after, k);
        if k < n {
            lemma_user_index(before, k);
        }
    }
    assert(logs_value(after) =~= expected);
}

/// A listing made log by log names every user once, with its event count.
proof fn lemma_listing(
    users: Seq<UserLog>,
    listing: Seq<UserCount>,
    store: Map<Seq<char>, Seq<EventValue>>,
)
    requires
        distinct_users(users),
        store == logs_value(users),
        listing.len() == users.len(),
        forall|j: int|
            0 <= j < users.len() ==> #[trigger] listing[j].user_id@ == users[j].user_id@
                && listing[j].events == users[j].events.len(),
    ensures
        lists_users(listing, store),
{
    assert forall|i: int| 0 <= i < listing.len() implies store.contains_key(
        #[trigger] listing[i].user_id@,
    ) && store[listing[i].user_id@].len() == listing[i].events by {
        lemma_user_index(users, i);
    }
    assert forall|user: Seq<char>| #[trigger] store.contains_key(user) implies exists|i: int|
        0 <= i < listing.len() && #[trigger] listing[i].user_id@ == user by {
        let k = user_index(users, user);
        assert(listing[k].user_id@ == user);
    }
    assert forall|i: int, j: int| 0 <= i < j < listing.len() implies #[trigger] listing[i].user_id@
        != #[trigger] listing[j].user_id@ by {
        assert(users[i].user_id@ != users[j].user_id@);
    }
}

} // verus!

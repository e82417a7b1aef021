//! An item that several servers have: each of them is asked, and the client gets one item with
//! the versions of all. It says what it waits for, and goes on once it is told.
use vstd::prelude::*;

use crate::grouped_playback::session_values;
use crate::items::{
    candidates_for, grouped_candidates, is_shared, merge_grouped_item, merged_sources, shown_place,
    sources_of, FetchedItem, GroupedCandidate,
};
use crate::media_storage_service::MediaDedupeGroup;
use crate::models::{AuthorizationSession, MediaItem, Server};
use crate::order::{are_places, lemma_next_place, lemma_no_places};

verus! {

/// What a grouped item waits for, or what it came to.
#[derive(Debug, Clone, Copy, PartialEq, Eq, Structural)]
pub enum ItemStage {
    /// The group of the item is looked up.
    FindGroup,
    /// The server in turn is asked.
    AskServer,
    /// The item of all servers is the answer.
    Respond,
    /// One server is asked as if the item were not shared.
    FallBack,
    /// The request fails with this status.
    Fail(u16),
}

/// What a grouped item is told.
#[derive(Debug)]
pub enum ItemAnswer {
    /// The group of the item.
    Group(Option<MediaDedupeGroup>),
    /// The server in turn does not give the item.
    Unavailable,
    /// The item of the server in turn cannot be shown, which comes to this status.
    Rejected(u16),
    /// The item of the server in turn.
    Item(MediaItem),
}

/// A grouped item as values.
#[verifier::ext_equal]
pub struct GroupedItemView {
    pub stage: ItemStage,
    pub requested_item_id: Seq<char>,
    pub sessions: Option<Seq<(AuthorizationSession, Server)>>,
    pub can_repeat: bool,
    pub candidates: Seq<GroupedCandidate>,
    pub place: int,
    pub fetched: Seq<FetchedItem>,
}

/// A grouped item that has not begun.
pub open spec fn fresh_item(
    requested_item_id: Seq<char>,
    sessions: Option<Seq<(AuthorizationSession, Server)>>,
    can_repeat: bool,
) -> GroupedItemView {
    GroupedItemView {
        stage: ItemStage::FindGroup,
        requested_item_id,
        sessions,
        can_repeat,
        candidates: Seq::empty(),
        place: 0,
        fetched: Seq::empty(),
    }
}

/// The grouped item with the given server in turn; where there is no such server, the items that
/// were fetched are the answer if there are any.
pub open spec fn to_server(v: GroupedItemView, place: int) -> GroupedItemView {
    GroupedItemView {
        place,
        stage: if place < v.candidates.len() {
            ItemStage::AskServer
        } else if v.fetched.len() > 0 {
            ItemStage::Respond
        } else {
            ItemStage::FallBack
        },
        ..v
    }
}

/// The grouped item once it has been told something that it waits for.
pub open spec fn after_item_answer(v: GroupedItemView, answer: ItemAnswer) -> GroupedItemView {
    match answer {
        ItemAnswer::Group(group) => if !is_shared(group) || v.sessions is None || !v.can_repeat {
            GroupedItemView { stage: ItemStage::FallBack, ..v }
        } else {
            to_server(
                GroupedItemView {
                    candidates: candidates_for((group->0).members@, v.sessions->0),
                    ..v
                },
                0,
            )
        },
        ItemAnswer::Unavailable => to_server(v, v.place + 1),
        ItemAnswer::Rejected(status) => GroupedItemView { stage: ItemStage::Fail(status), ..v },
        ItemAnswer::Item(item) => to_server(
            GroupedItemView {
                fetched: v.fetched.push(
                    FetchedItem { server: v.candidates[v.place].server, item },
                ),
                ..v
            },
            v.place + 1,
        ),
    }
}

/// Whether the answer is one that the grouped item waits for.
pub open spec fn awaits_item_answer(v: GroupedItemView, answer: ItemAnswer) -> bool {
    match answer {
        ItemAnswer::Group(_) => v.stage == ItemStage::FindGroup,
        _ => v.stage == ItemStage::AskServer,
    }
}

/// What holds of every grouped item: the server in turn exists, no more items were fetched than
/// servers were asked, and there is an item where the answer is one.
pub open spec fn is_sound_item(v: GroupedItemView) -> bool {
    &&& v.stage == ItemStage::FindGroup ==> v.fetched.len() == 0 && v.place == 0
    &&& v.stage == ItemStage::AskServer ==> 0 <= v.place < v.candidates.len()
    &&& v.stage == ItemStage::Respond ==> v.fetched.len() > 0
    &&& v.fetched.len() <= v.place
}

/// A grouped item from its start to its outcome.
#[derive(Debug)]
pub struct GroupedItem {
    stage: ItemStage,
    requested_item_id: String,
    sessions: Option<Vec<(AuthorizationSession, Server)>>,
    can_repeat: bool,
    candidates: Vec<GroupedCandidate>,
    place: usize,
    fetched: Vec<FetchedItem>,
}

impl View for GroupedItem {
    type V = GroupedItemView;

    closed spec fn view(&self) -> GroupedItemView {
        GroupedItemView {
            stage: self.stage,
            requested_item_id: self.requested_item_id@,
            sessions: session_values(self.sessions),
            can_repeat: self.can_repeat,
            candidates: self.candidates@,
            place: self.place as int,
            fetched: self.fetched@,
        }
    }
}

impl GroupedItem {
    /// A grouped item that has not begun. `can_repeat` says whether the client's request is there
    /// and can be sent again to several servers.
    pub fn new(
        requested_item_id: String,
        sessions: Option<Vec<(AuthorizationSession, Server)>>,
        can_repeat: bool,
    ) -> (r: Self)
        ensures
            r@ == fresh_item(requested_item_id@, session_values(sessions), can_repeat),
            is_sound_item(r@),
    {
        let r: GroupedItem = GroupedItem {
            stage: ItemStage::FindGroup,
            requested_item_id,
            sessions,
            can_repeat,
            candidates: Vec::new(),
            place: 0,
            fetched: Vec::new(),
        };
        assert(r@ =~= fresh_item(requested_item_id@, session_values(sessions), can_repeat));
        r
    }

    fn go_to_server(&mut self, place: usize)
        ensures
            final(self)@ == to_server(old(self)@, place as int),
    {
        self.place = place;
        if place < self.candidates.len() {
            self.stage = ItemStage::AskServer;
        } else if self.fetched.len() > 0 {
            self.stage = ItemStage::Respond;
        } else {
            self.stage = ItemStage::FallBack;
        }
        assert(self@ =~= to_server(old(self)@, place as int));
    }

    /// Whether the grouped item waits for the answer.
    pub fn accepts(&self, answer: &ItemAnswer) -> (r: bool)
        ensures
            r == awaits_item_answer(self@, *answer),
    {
        match answer {
            ItemAnswer::Group(_) => self.stage == ItemStage::FindGroup,
            _ => self.stage == ItemStage::AskServer,
        }
    }

    /// Tells the grouped item what it waits for.
    pub fn step(&mut self, answer: ItemAnswer)
        requires
            is_sound_item(old(self)@),
            awaits_item_answer(old(self)@, answer),
        ensures
            final(self)@ == after_item_answer(old(self)@, answer),
            is_sound_item(final(self)@),
            final(self)@.stage == ItemStage::Respond ==> final(self)@.place
                == final(self)@.candidates.len(),
    {
        let ghost v = self@;
        match answer {
            ItemAnswer::Group(group) => {
                if !self.can_repeat {
                    self.stage = ItemStage::FallBack;
                    assert(self@ =~= after_item_answer(v, answer));
                } else {
                    match grouped_candidates(&group, &self.sessions) {
                        Some(candidates) => {
                            self.candidates = candidates;
                            assert(self@ =~= (GroupedItemView {
                                candidates: candidates_for((group->0).members@, v.sessions->0),
                                ..v
                            }));
                            self.go_to_server(0);
                        },
                        None => {
                            self.stage = ItemStage::FallBack;
                            assert(self@ =~= after_item_answer(v, answer));
                        },
                    }
                }
            },
            ItemAnswer::Unavailable => {
                assert(self.candidates@.len() == self.candidates.len());
                let next: usize = self.place + 1;
                self.go_to_server(next);
            },
            ItemAnswer::Rejected(status) => {
                self.stage = ItemStage::Fail(status);
                assert(self@ =~= after_item_answer(v, answer));
            },
            ItemAnswer::Item(item) => {
                assert(self.candidates@.len() == self.candidates.len());
                let next: usize = self.place + 1;
                let server: Server = self.candidates[self.place].server.clone();
                self.fetched.push(FetchedItem { server, item });
                assert(self@ =~= (GroupedItemView {
                    fetched: v.fetched.push(
                        FetchedItem { server: v.candidates[v.place].server, item },
                    ),
                    ..v
                }));
                self.go_to_server(next);
            },
        }
    }

    /// What the grouped item waits for, or what it came to.
    pub fn stage(&self) -> (r: ItemStage)
        ensures
            r == self@.stage,
    {
        self.stage
    }

    /// The server in turn.
    pub fn candidate_in_turn(&self) -> (r: Option<&GroupedCandidate>)
        ensures
            match r {
                Some(candidate) => 0 <= self@.place < self@.candidates.len() && *candidate
                    == self@.candidates[self@.place],
                None => self@.place >= self@.candidates.len(),
            },
    {
        if self.place < self.candidates.len() {
            Some(&self.candidates[self.place])
        } else {
            None
        }
    }

    /// The answer to the client: the preferred item under the identifier that was asked for, with
    /// the versions of all servers. There is none unless the grouped item has come to one.
    pub fn into_item(self) -> (r: Option<MediaItem>)
        requires
            is_sound_item(self@),
        ensures
            r is Some <==> self@.stage == ItemStage::Respond,
            r is Some ==> {
                let item = r->0;
                &&& item.id@ == self@.requested_item_id
                &&& sources_of(item) == merged_sources(self@.fetched)
                &&& item.media_sources is Some <==> merged_sources(self@.fetched).len() > 0
                &&& item == (MediaItem {
                    id: item.id,
                    media_sources: item.media_sources,
                    ..self@.fetched[shown_place(self@.fetched)].item
                })
            },
    {
        if self.stage == ItemStage::Respond {
            merge_grouped_item(self.requested_item_id.as_str(), self.fetched)
        } else {
            None
        }
    }
}

/// How far a grouped item has come.
pub open spec fn item_progress(v: GroupedItemView) -> int {
    match v.stage {
        ItemStage::FindGroup => -1,
        ItemStage::AskServer => v.place,
        _ => v.candidates.len() as int,
    }
}

/// Every answer moves a grouped item on, and it goes no further than its end: so each server is
/// asked once at most. It stays sound.
pub proof fn every_answer_moves_a_grouped_item_on(v: GroupedItemView, answer: ItemAnswer)
    requires
        is_sound_item(v),
        awaits_item_answer(v, answer),
    ensures
        is_sound_item(after_item_answer(v, answer)),
        item_progress(v) < item_progress(after_item_answer(v, answer)),
        item_progress(after_item_answer(v, answer)) <= after_item_answer(
            v,
            answer,
        ).candidates.len(),
{
}

/// A grouped item waits for its group first, and then for what the server in turn says; once it
/// has come to something it waits for nothing.
pub proof fn a_grouped_item_waits_for_one_thing(v: GroupedItemView, answer: ItemAnswer)
    ensures
        awaits_item_answer(v, answer) <==> {
            ||| v.stage == ItemStage::FindGroup && answer is Group
            ||| v.stage == ItemStage::AskServer && (answer is Item || answer is Unavailable
                || answer is Rejected)
        },
{
}

/// The servers are asked where the group has two members or more, the user's sessions are known
/// and the request can be sent again: all that have a session. In every other case, and where
/// there is no such server, the item is fetched as if it were not shared.
pub proof fn only_what_is_shared_is_asked_for_on_many_servers(
    v: GroupedItemView,
    group: Option<MediaDedupeGroup>,
)
    requires
        is_sound_item(v),
        v.stage == ItemStage::FindGroup,
    ensures
        ({
            let next = after_item_answer(v, ItemAnswer::Group(group));
            let asked = v.can_repeat && v.sessions is Some && group is Some && (
            group->0).members@.len() >= 2;
            &&& asked ==> next.candidates == candidates_for((group->0).members@, v.sessions->0)
            &&& !asked ==> next.candidates == v.candidates
            &&& next.stage == if asked && next.candidates.len() > 0 {
                ItemStage::AskServer
            } else {
                ItemStage::FallBack
            }
            &&& next.place == 0
            &&& next.fetched.len() == 0
            &&& next.requested_item_id == v.requested_item_id
            &&& next.sessions == v.sessions
            &&& next.can_repeat == v.can_repeat
        }),
{
}

/// Whatever the server in turn says of the item, the server behind it is next. Only behind the
/// last server does the grouped item come to something: to an answer exactly where a server gave
/// the item. An item that cannot be shown ends it at once.
pub proof fn servers_are_asked_one_after_the_other(v: GroupedItemView, answer: ItemAnswer)
    requires
        is_sound_item(v),
        v.stage == ItemStage::AskServer,
        !(answer is Group),
    ensures
        ({
            let next = after_item_answer(v, answer);
            let is_last = v.place + 1 == v.candidates.len();
            &&& next.candidates == v.candidates
            &&& next.requested_item_id == v.requested_item_id
            &&& next.sessions == v.sessions
            &&& next.can_repeat == v.can_repeat
            &&& match answer {
                ItemAnswer::Rejected(status) => {
                    &&& next.stage == ItemStage::Fail(status)
                    &&& next.place == v.place
                    &&& next.fetched == v.fetched
                },
                ItemAnswer::Item(item) => {
                    &&& next.place == v.place + 1
                    &&& next.fetched.len() == v.fetched.len() + 1
                    &&& next.fetched.drop_last() == v.fetched
                    &&& next.fetched.last().item == item
                    &&& next.fetched.last().server == v.candidates[v.place].server
                    &&& next.stage == if is_last {
                        ItemStage::Respond
                    } else {
                        ItemStage::AskServer
                    }
                },
                _ => {
                    &&& next.place == v.place + 1
                    &&& next.fetched == v.fetched
                    &&& next.stage == if !is_last {
                        ItemStage::AskServer
                    } else if v.fetched.len() > 0 {
                        ItemStage::Respond
                    } else {
                        ItemStage::FallBack
                    }
                },
            }
        }),
{
    let next = after_item_answer(v, answer);
    if answer is Item {
        assert(next.fetched.drop_last() =~= v.fetched);
    }
}

/// The grouped item once it has been told all of these, one after the other.
pub open spec fn after_item_answers(v: GroupedItemView, answers: Seq<ItemAnswer>) -> GroupedItemView
    decreases answers.len(),
{
    if answers.len() == 0 {
        v
    } else {
        after_item_answer(after_item_answers(v, answers.drop_last()), answers.last())
    }
}

/// A grouped item comes to an answer, or falls back, only once every one of its servers was asked:
/// each of them gave the item, which is then among those that were fetched, or was reported
/// unavailable. The items that were fetched are those that the servers gave, in their order, each
/// with the server that gave it.
pub proof fn every_server_is_asked_for_the_item(
    v: GroupedItemView,
    answers: Seq<ItemAnswer>,
) -> (places: Seq<int>)
    requires
        v.stage == ItemStage::AskServer,
        v.place == 0,
        v.fetched.len() == 0,
        answers.len() <= v.candidates.len(),
        v.candidates.len() > 0,
        forall|i: int|
            0 <= i < answers.len() ==> (#[trigger] answers[i]) is Item || answers[i] is Unavailable,
    ensures
        are_places(places, answers.len() as int, |k: int| answers[k] is Item),
        ({
            let end = after_item_answers(v, answers);
            &&& is_sound_item(end)
            &&& end.candidates == v.candidates
            &&& end.requested_item_id == v.requested_item_id
            &&& end.sessions == v.sessions
            &&& end.can_repeat == v.can_repeat
            &&& end.place == answers.len()
            &&& end.fetched.len() == places.len()
            &&& forall|i: int|
                0 <= i < places.len() ==> {
                    &&& 0 <= #[trigger] places[i] < answers.len()
                    &&& end.fetched[i].server == v.candidates[places[i]].server
                    &&& answers[places[i]] == ItemAnswer::Item(end.fetched[i].item)
                }
            &&& end.stage == if answers.len() < v.candidates.len() {
                ItemStage::AskServer
            } else if places.len() > 0 {
                ItemStage::Respond
            } else {
                ItemStage::FallBack
            }
        }),
    decreases answers.len(),
{
    let chosen = |k: int| answers[k] is Item;
    if answers.len() == 0 {
        lemma_no_places(chosen);
        let none = Seq::<int>::empty();
        assert(none.len() == 0);
        none
    } else {
        let rest = answers.drop_last();
        let n = rest.len() as int;
        assert forall|i: int| 0 <= i < rest.len() implies (#[trigger] rest[i]) is Item
            || rest[i] is Unavailable by {
            assert(rest[i] == answers[i]);
        }
        let places = every_server_is_asked_for_the_item(v, rest);
        let before = |k: int| rest[k] is Item;
        assert forall|k: int| 0 <= k < n implies #[trigger] before(k) == chosen(k) by {
            assert(rest[k] == answers[k]);
        }
        let next = lemma_next_place(places, n, before, chosen);
        let mid = after_item_answers(v, rest);
        let end = after_item_answers(v, answers);
        assert(end == after_item_answer(mid, answers[n]));
        servers_are_asked_one_after_the_other(mid, answers[n]);
        assert forall|i: int| 0 <= i < next.len() implies {
            &&& 0 <= #[trigger] next[i] < answers.len()
            &&& end.fetched[i].server == v.candidates[next[i]].server
            &&& answers[next[i]] == ItemAnswer::Item(end.fetched[i].item)
        } by {
            if i < places.len() {
                assert(next[i] == places[i]);
                assert(0 <= places[i] < rest.len());
                assert(rest[places[i]] == answers[places[i]]);
                assert(end.fetched[i] == mid.fetched[i]);
            }
        }
        next
    }
}

/// A grouped item begins by looking for its group, with no server asked and nothing fetched.
pub proof fn a_grouped_item_begins_with_its_group(
    requested_item_id: Seq<char>,
    sessions: Option<Seq<(AuthorizationSession, Server)>>,
    can_repeat: bool,
)
    ensures
        ({
            let v = fresh_item(requested_item_id, sessions, can_repeat);
            &&& v.stage == ItemStage::FindGroup
            &&& v.requested_item_id == requested_item_id
            &&& v.sessions == sessions
            &&& v.can_repeat == can_repeat
            &&& v.candidates.len() == 0
            &&& v.place == 0
            &&& v.fetched.len() == 0
        }),
{
}

} // verus!

//! Playback of a medium that several servers have: each of them is asked, and the client gets
//! the versions of all. It says what it waits for, and goes on once it is told.
use vstd::prelude::*;

use crate::items::{
    all_sources, candidates_for, decorated, extract_item_id_from_path, forwarded, grouped_candidates,
    is_shared, item_id_among, merge_playback_responses, name_sources, named,
    naming_versions_keeps_the_response, payload_for_server, selected_candidates, source_name,
    source_to_look_up, GroupedCandidate,
};
use crate::media_storage_service::MediaDedupeGroup;
use crate::models::{
    copy_optional, response_values, AuthorizationSession, MediaSourceView, PlaybackRequest,
    PlaybackResponse, PlaybackResponseView, Server, STATUS_INTERNAL_SERVER_ERROR,
};
use crate::order::{
    are_places, filtering_keeps_what_is_wanted, lemma_place_is_chosen, lemma_same_places,
};
use crate::text::{path_segments, text_option};

verus! {

/// What a grouped playback waits for, or what it came to.
#[derive(Debug, Clone, Copy, PartialEq, Eq, Structural)]
pub enum PlaybackStage {
    /// The group of the item is looked up.
    FindGroup,
    /// The server of the version that the client has selected is looked up.
    FindSelected,
    /// The own identifier of that version is looked up.
    FindMapping,
    /// The server in turn is asked.
    AskServer,
    /// The versions of all servers are the answer.
    Respond,
    /// One server is asked as if the item were not shared.
    FallBack,
    /// The request fails with this status.
    Fail(u16),
}

/// What a grouped playback is told.
#[derive(Debug)]
pub enum PlaybackAnswer {
    /// The group of the item.
    Group(Option<MediaDedupeGroup>),
    /// The server of the selected version; an error where it could not be looked up.
    Selected(Result<Option<i64>, ()>),
    /// The own identifier of the selected version; an error where it could not be looked up.
    Mapping(Result<Option<String>, ()>),
    /// What the server in turn answered, or the status that its answer came to.
    Response(Result<PlaybackResponse, u16>),
}

/// A grouped playback as values.
#[verifier::ext_equal]
pub struct PlaybackView {
    pub stage: PlaybackStage,
    pub item_id: Option<Seq<char>>,
    pub payload: PlaybackRequest,
    pub sessions: Option<Seq<(AuthorizationSession, Server)>>,
    pub can_repeat: bool,
    pub selected: Option<i64>,
    pub candidates: Seq<GroupedCandidate>,
    pub place: int,
    pub mapped: Option<String>,
    pub responses: Seq<PlaybackResponseView>,
}

/// The sessions as values.
pub open spec fn session_values(sessions: Option<Vec<(AuthorizationSession, Server)>>) -> Option<
    Seq<(AuthorizationSession, Server)>,
> {
    match sessions {
        Some(used) => Some(used@),
        None => None,
    }
}

/// A playback that has not begun. It is over at once where the path names no item.
pub open spec fn fresh_playback(
    path: Seq<char>,
    payload: PlaybackRequest,
    sessions: Option<Seq<(AuthorizationSession, Server)>>,
    can_repeat: bool,
) -> PlaybackView {
    let item_id = item_id_among(path_segments(path));
    PlaybackView {
        stage: if item_id is Some {
            PlaybackStage::FindGroup
        } else {
            PlaybackStage::FallBack
        },
        item_id,
        payload,
        sessions,
        can_repeat,
        selected: None,
        candidates: Seq::empty(),
        place: 0,
        mapped: None,
        responses: Seq::empty(),
    }
}

/// The playback with the given candidate in turn; where there is no such candidate, the versions
/// of all are the answer if there are any.
pub open spec fn to_candidate(v: PlaybackView, place: int) -> PlaybackView {
    PlaybackView {
        place,
        mapped: None,
        stage: if place >= v.candidates.len() {
            if all_sources(v.responses).len() > 0 {
                PlaybackStage::Respond
            } else {
                PlaybackStage::FallBack
            }
        } else if v.payload.media_source_id is Some && v.selected == Some(
            v.candidates[place].server.id,
        ) {
            PlaybackStage::FindMapping
        } else {
            PlaybackStage::AskServer
        },
        ..v
    }
}

/// The playback once it is known which server the client has selected. Only the candidates on it
/// are asked; without any, and where the request cannot be sent again, the playback is over.
pub open spec fn with_selected(v: PlaybackView, selected: Option<i64>) -> PlaybackView {
    let candidates = v.candidates.filter(
        |candidate: GroupedCandidate| selected is None || candidate.server.id == selected->0,
    );
    let chosen = PlaybackView { selected, candidates, ..v };
    if candidates.len() == 0 || !v.can_repeat {
        PlaybackView { stage: PlaybackStage::FallBack, ..chosen }
    } else {
        to_candidate(chosen, 0)
    }
}

/// The playback once the group of the item is known.
pub open spec fn after_group(v: PlaybackView, group: Option<MediaDedupeGroup>) -> PlaybackView {
    if !is_shared(group) || v.sessions is None {
        PlaybackView { stage: PlaybackStage::FallBack, ..v }
    } else {
        let listed = PlaybackView {
            candidates: candidates_for((group->0).members@, v.sessions->0),
            ..v
        };
        if v.payload.media_source_id is Some {
            PlaybackView { stage: PlaybackStage::FindSelected, ..listed }
        } else {
            with_selected(listed, None)
        }
    }
}

/// The playback once it has been told something that it waits for.
pub open spec fn after_playback_answer(v: PlaybackView, answer: PlaybackAnswer) -> PlaybackView {
    match answer {
        PlaybackAnswer::Group(group) => after_group(v, group),
        PlaybackAnswer::Selected(Ok(selected)) => with_selected(v, selected),
        PlaybackAnswer::Selected(Err(_)) => PlaybackView {
            stage: PlaybackStage::Fail(STATUS_INTERNAL_SERVER_ERROR),
            ..v
        },
        PlaybackAnswer::Mapping(Ok(mapped)) => PlaybackView {
            mapped,
            stage: PlaybackStage::AskServer,
            ..v
        },
        PlaybackAnswer::Mapping(Err(_)) => PlaybackView {
            stage: PlaybackStage::Fail(STATUS_INTERNAL_SERVER_ERROR),
            ..v
        },
        PlaybackAnswer::Response(Ok(response)) => to_candidate(
            PlaybackView {
                responses: v.responses.push(
                    named(response@, v.candidates[v.place].server.name@),
                ),
                ..v
            },
            v.place + 1,
        ),
        PlaybackAnswer::Response(Err(status)) => PlaybackView {
            stage: PlaybackStage::Fail(status),
            ..v
        },
    }
}

/// Whether the answer is one that the playback waits for.
pub open spec fn awaits_playback_answer(v: PlaybackView, answer: PlaybackAnswer) -> bool {
    match answer {
        PlaybackAnswer::Group(_) => v.stage == PlaybackStage::FindGroup,
        PlaybackAnswer::Selected(_) => v.stage == PlaybackStage::FindSelected,
        PlaybackAnswer::Mapping(_) => v.stage == PlaybackStage::FindMapping,
        PlaybackAnswer::Response(_) => v.stage == PlaybackStage::AskServer,
    }
}

/// Whether a server is in turn.
pub open spec fn has_candidate(stage: PlaybackStage) -> bool {
    stage == PlaybackStage::FindMapping || stage == PlaybackStage::AskServer
}

/// Whether the versions of a response are under names that tell that they are on the server.
pub open spec fn is_named_after(response: PlaybackResponseView, server_name: Seq<char>) -> bool {
    exists|told: PlaybackResponseView| response == #[trigger] named(told, server_name)
}

/// Whether the responses are the answers of the first candidates, named after their servers.
pub open spec fn are_named_after_servers(v: PlaybackView) -> bool {
    &&& v.responses.len() <= v.candidates.len()
    &&& forall|i: int|
        0 <= i < v.responses.len() ==> is_named_after(
            #[trigger] v.responses[i],
            v.candidates[i].server.name@,
        )
}

/// What holds of every playback: the server in turn exists, every server before it has answered,
/// and what a playback responds with are the answers of all servers, each version named after its
/// server.
pub open spec fn is_sound_playback(v: PlaybackView) -> bool {
    &&& v.stage == PlaybackStage::FindGroup ==> v.item_id is Some && v.responses.len() == 0
        && v.place == 0
    &&& v.stage == PlaybackStage::FindSelected ==> v.payload.media_source_id is Some
        && v.responses.len() == 0 && v.place == 0
    &&& has_candidate(v.stage) ==> 0 <= v.place < v.candidates.len() && v.responses.len()
        == v.place && are_named_after_servers(v)
    &&& v.stage == PlaybackStage::FindMapping ==> v.payload.media_source_id is Some && v.selected
        == Some(v.candidates[v.place].server.id)
    &&& v.stage == PlaybackStage::Respond ==> {
        &&& v.responses.len() == v.candidates.len()
        &&& are_named_after_servers(v)
        &&& all_sources(v.responses).len() > 0
    }
}

/// A grouped playback from its start to its outcome.
#[derive(Debug)]
pub struct GroupedPlayback {
    stage: PlaybackStage,
    item_id: Option<String>,
    payload: PlaybackRequest,
    sessions: Option<Vec<(AuthorizationSession, Server)>>,
    can_repeat: bool,
    selected: Option<i64>,
    candidates: Vec<GroupedCandidate>,
    place: usize,
    mapped: Option<String>,
    responses: Vec<PlaybackResponse>,
}

impl View for GroupedPlayback {
    type V = PlaybackView;

    closed spec fn view(&self) -> PlaybackView {
        PlaybackView {
            stage: self.stage,
            item_id: text_option(self.item_id),
            payload: self.payload,
            sessions: session_values(self.sessions),
            can_repeat: self.can_repeat,
            selected: self.selected,
            candidates: self.candidates@,
            place: self.place as int,
            mapped: self.mapped,
            responses: response_values(self.responses@),
        }
    }
}

fn has_sources(responses: &Vec<PlaybackResponse>) -> (r: bool)
    ensures
        r == (all_sources(response_values(responses@)).len() > 0),
{
    let ghost all = response_values(responses@);
    let mut i: usize = 0;
    assert(all_sources(all.take(0)) =~= Seq::<MediaSourceView>::empty());
    while i < responses.len()
        invariant
            i <= responses@.len(),
            all == response_values(responses@),
            all_sources(all.take(i as int)).len() == 0,
        decreases responses@.len() - i,
    {
        assert(all.take(i + 1).drop_last() == all.take(i as int));
        assert(all[i as int] == responses@[i as int]@);
        if responses[i].media_sources.len() > 0 {
            proof {
                lemma_sources_grow(all, i + 1);
            }
            return true;
        }
        i += 1;
    }
    assert(all.take(i as int) == all);
    false
}

proof fn lemma_sources_grow(responses: Seq<PlaybackResponseView>, n: int)
    requires
        0 <= n <= responses.len(),
    ensures
        all_sources(responses.take(n)).len() <= all_sources(responses).len(),
    decreases responses.len(),
{
    if n < responses.len() {
        lemma_sources_grow(responses.drop_last(), n);
        assert(responses.drop_last().take(n) =~= responses.take(n));
    } else {
        assert(responses.take(n) =~= responses);
    }
}

impl GroupedPlayback {
    /// A playback that has not begun. `can_repeat` says whether the client's request can be sent
    /// again to several servers.
    pub fn new(
        path: &str,
        payload: PlaybackRequest,
        sessions: Option<Vec<(AuthorizationSession, Server)>>,
        can_repeat: bool,
    ) -> (r: Self)
        ensures
            r@ == fresh_playback(path@, payload, session_values(sessions), can_repeat),
            is_sound_playback(r@),
    {
        let item_id: Option<String> = extract_item_id_from_path(path);
        let stage: PlaybackStage = if item_id.is_some() {
            PlaybackStage::FindGroup
        } else {
            PlaybackStage::FallBack
        };
        let r: GroupedPlayback = GroupedPlayback {
            stage,
            item_id,
            payload,
            sessions,
            can_repeat,
            selected: None,
            candidates: Vec::new(),
            place: 0,
            mapped: None,
            responses: Vec::new(),
        };
        assert(r@ =~= fresh_playback(path@, payload, session_values(sessions), can_repeat));
        r
    }

    fn go_to_candidate(&mut self, place: usize)
        ensures
            final(self)@ == to_candidate(old(self)@, place as int),
    {
        self.place = place;
        self.mapped = None;
        if place >= self.candidates.len() {
            if has_sources(&self.responses) {
                self.stage = PlaybackStage::Respond;
            } else {
                self.stage = PlaybackStage::FallBack;
            }
        } else {
            let wanted: Option<String> = source_to_look_up(
                &self.payload,
                self.candidates[place].server.id,
                self.selected,
            );
            if wanted.is_some() {
                self.stage = PlaybackStage::FindMapping;
            } else {
                self.stage = PlaybackStage::AskServer;
            }
        }
        assert(self@ =~= to_candidate(old(self)@, place as int));
    }

    fn select(&mut self, selected: Option<i64>)
        ensures
            final(self)@ == with_selected(old(self)@, selected),
    {
        let ghost v = self@;
        let mut candidates: Vec<GroupedCandidate> = Vec::new();
        std::mem::swap(&mut candidates, &mut self.candidates);
        self.candidates = selected_candidates(candidates, selected);
        self.selected = selected;
        let ghost kept = v.candidates.filter(
            |candidate: GroupedCandidate| selected is None || candidate.server.id == selected->0,
        );
        assert(self@ =~= (PlaybackView { selected, candidates: kept, ..v }));
        if self.candidates.len() == 0 || !self.can_repeat {
            self.stage = PlaybackStage::FallBack;
            assert(self@ =~= with_selected(v, selected));
        } else {
            self.go_to_candidate(0);
        }
    }

    fn take_group(&mut self, group: Option<MediaDedupeGroup>)
        ensures
            final(self)@ == after_group(old(self)@, group),
    {
        let ghost v = self@;
        match grouped_candidates(&group, &self.sessions) {
            Some(candidates) => {
                self.candidates = candidates;
                assert(self@ =~= (PlaybackView {
                    candidates: candidates_for((group->0).members@, v.sessions->0),
                    ..v
                }));
                if self.payload.media_source_id.is_some() {
                    self.stage = PlaybackStage::FindSelected;
                    assert(self@ =~= after_group(v, group));
                } else {
                    self.select(None);
                }
            },
            None => {
                self.stage = PlaybackStage::FallBack;
                assert(self@ =~= after_group(v, group));
            },
        }
    }

    /// Whether the playback waits for the answer.
    pub fn accepts(&self, answer: &PlaybackAnswer) -> (r: bool)
        ensures
            r == awaits_playback_answer(self@, *answer),
    {
        match answer {
            PlaybackAnswer::Group(_) => self.stage == PlaybackStage::FindGroup,
            PlaybackAnswer::Selected(_) => self.stage == PlaybackStage::FindSelected,
            PlaybackAnswer::Mapping(_) => self.stage == PlaybackStage::FindMapping,
            PlaybackAnswer::Response(_) => self.stage == PlaybackStage::AskServer,
        }
    }

    /// Tells the playback what it waits for.
    pub fn step(&mut self, answer: PlaybackAnswer)
        requires
            is_sound_playback(old(self)@),
            awaits_playback_answer(old(self)@, answer),
        ensures
            final(self)@ == after_playback_answer(old(self)@, answer),
            is_sound_playback(final(self)@),
    {
        let ghost v = self@;
        proof {
            a_playback_stays_sound(v, answer);
        }
        match answer {
            PlaybackAnswer::Group(group) => self.take_group(group),
            PlaybackAnswer::Selected(Ok(selected)) => self.select(selected),
            PlaybackAnswer::Selected(Err(_)) => {
                self.stage = PlaybackStage::Fail(STATUS_INTERNAL_SERVER_ERROR);
                assert(self@ =~= after_playback_answer(v, answer));
            },
            PlaybackAnswer::Mapping(Ok(mapped)) => {
                self.mapped = mapped;
                self.stage = PlaybackStage::AskServer;
                assert(self@ =~= after_playback_answer(v, answer));
            },
            PlaybackAnswer::Mapping(Err(_)) => {
                self.stage = PlaybackStage::Fail(STATUS_INTERNAL_SERVER_ERROR);
                assert(self@ =~= after_playback_answer(v, answer));
            },
            PlaybackAnswer::Response(Ok(response)) => {
                assert(self.candidates@.len() == self.candidates.len());
                let next: usize = self.place + 1;
                let ghost told = response@;
                let ghost held = self.responses@;
                let answer: PlaybackResponse = name_sources(
                    response,
                    self.candidates[self.place].server.name.as_str(),
                );
                self.responses.push(answer);
                assert(response_values(self.responses@) =~= response_values(held).push(answer@));
                assert(self@ =~= (PlaybackView {
                    responses: v.responses.push(
                        named(told, v.candidates[v.place].server.name@),
                    ),
                    ..v
                }));
                self.go_to_candidate(next);
            },
            PlaybackAnswer::Response(Err(status)) => {
                self.stage = PlaybackStage::Fail(status);
                assert(self@ =~= after_playback_answer(v, answer));
            },
        }
    }

    /// What the server in turn is asked with.
    pub fn payload_in_turn(&self) -> (r: PlaybackRequest)
        requires
            self@.stage == PlaybackStage::AskServer,
            is_sound_playback(self@),
        ensures
            r == asked_with(self@),
    {
        let candidate: &GroupedCandidate = &self.candidates[self.place];
        payload_for_server(
            &self.payload,
            &candidate.session.original_user_id,
            candidate.server.id,
            self.selected,
            copy_optional(&self.mapped),
        )
    }

    /// What the playback waits for, or what it came to.
    pub fn stage(&self) -> (r: PlaybackStage)
        ensures
            r == self@.stage,
    {
        self.stage
    }

    /// The item that the group is looked up of.
    pub fn item_id(&self) -> (r: Option<String>)
        ensures
            text_option(r) == self@.item_id,
    {
        copy_optional(&self.item_id)
    }

    /// The version that the client has selected, which its server and its own identifier are
    /// looked up of.
    pub fn selected_source(&self) -> (r: Option<String>)
        ensures
            r == self@.payload.media_source_id,
    {
        copy_optional(&self.payload.media_source_id)
    }

    /// The servers that are asked.
    pub fn candidates(&self) -> (r: &Vec<GroupedCandidate>)
        ensures
            r@ == self@.candidates,
    {
        &self.candidates
    }

    /// The server in turn.
    pub fn candidate_in_turn(&self) -> (r: Option<&GroupedCandidate>)
        ensures
            match r {
                Some(candidate) => 0 <= self@.place < self@.candidates.len() && *candidate
                    == self@.candidates[self@.place],
                None => self@.place >= self@.candidates.len(),
            },
    {
        if self.place < self.candidates.len() {
            Some(&self.candidates[self.place])
        } else {
            None
        }
    }

    /// The answer to the client: the versions of all servers, each named after its server, in the
    /// session of the server that was asked first. There is none unless the playback has come to
    /// one.
    pub fn into_response(self) -> (r: Option<PlaybackResponse>)
        requires
            is_sound_playback(self@),
        ensures
            r is Some <==> self@.stage == PlaybackStage::Respond,
            r is Some ==> {
                &&& (r->0)@.media_sources == all_sources(self@.responses)
                &&& (r->0)@.play_session_id == self@.responses[0].play_session_id
                &&& are_named_after_servers(self@)
            },
    {
        if self.stage == PlaybackStage::Respond {
            merge_playback_responses(self.responses)
        } else {
            None
        }
    }
}

/// What the server in turn is asked with: its own user; the selected version on the selected
/// server, under the server's own identifier where that is known; any version on another.
pub open spec fn asked_with(v: PlaybackView) -> PlaybackRequest {
    let candidate = v.candidates[v.place];
    if v.selected == Some(candidate.server.id) {
        forwarded(v.payload, candidate.session.original_user_id, v.mapped)
    } else {
        PlaybackRequest {
            media_source_id: None,
            ..forwarded(v.payload, candidate.session.original_user_id, None)
        }
    }
}

/// Whatever a playback is told, it stays sound.
pub proof fn a_playback_stays_sound(v: PlaybackView, answer: PlaybackAnswer)
    requires
        is_sound_playback(v),
        awaits_playback_answer(v, answer),
    ensures
        is_sound_playback(after_playback_answer(v, answer)),
{
    if let PlaybackAnswer::Response(Ok(response)) = answer {
        let name = v.candidates[v.place].server.name@;
        let w = after_playback_answer(v, answer);
        assert(is_named_after(named(response@, name), name));
        assert forall|i: int| 0 <= i < w.responses.len() implies is_named_after(
            #[trigger] w.responses[i],
            w.candidates[i].server.name@,
        ) by {
            if i < v.responses.len() {
                assert(w.responses[i] == v.responses[i]);
            }
        }
    }
}

/// Every version that a playback responds with is one that a server in the group was said to have,
/// under the name that tells the server.
pub proof fn versions_tell_their_servers(v: PlaybackView, i: int, k: int)
    requires
        is_sound_playback(v),
        v.stage == PlaybackStage::Respond,
        0 <= i < v.responses.len(),
        0 <= k < v.responses[i].media_sources.len(),
    ensures
        exists|name: Option<Seq<char>>|
            v.responses[i].media_sources[k].name == Some(
                #[trigger] source_name(name, v.candidates[i].server.name@),
            ),
{
    let server_name = v.candidates[i].server.name@;
    assert(is_named_after(v.responses[i], server_name));
    let told = choose|told: PlaybackResponseView|
        v.responses[i] == #[trigger] named(told, server_name);
    let name = told.media_sources[k].name;
    assert(v.responses[i].media_sources[k] == decorated(told.media_sources[k], server_name));
    assert(v.responses[i].media_sources[k].name == Some(source_name(name, server_name)));
}

/// How far a playback has come.
pub open spec fn playback_progress(v: PlaybackView) -> int {
    match v.stage {
        PlaybackStage::FindGroup => -2,
        PlaybackStage::FindSelected => -1,
        PlaybackStage::FindMapping => 2 * v.place,
        PlaybackStage::AskServer => 2 * v.place + 1,
        _ => (2 * v.candidates.len() + 2) as int,
    }
}

/// Every answer moves a playback on, and it goes no further than its end: so each server is asked
/// once at most.
pub proof fn every_answer_moves_a_playback_on(v: PlaybackView, answer: PlaybackAnswer)
    requires
        is_sound_playback(v),
        awaits_playback_answer(v, answer),
    ensures
        playback_progress(v) < playback_progress(after_playback_answer(v, answer)),
        playback_progress(after_playback_answer(v, answer)) <= 2 * after_playback_answer(
            v,
            answer,
        ).candidates.len() + 2,
{
}

/// Once the client has selected a server, no other is asked.
pub proof fn only_the_selected_server_is_asked(v: PlaybackView, selected: i64, i: int)
    requires
        0 <= i < with_selected(v, Some(selected)).candidates.len(),
    ensures
        with_selected(v, Some(selected)).candidates[i].server.id == selected,
{
    let choice = Some(selected);
    let kept = |candidate: GroupedCandidate|
        choice is None || candidate.server.id == choice->0;
    v.candidates.lemma_filter_pred(kept, i);
}

/// A playback waits for one thing at a time, and once it has come to something it waits for
/// nothing.
pub proof fn a_playback_waits_for_one_thing(v: PlaybackView, answer: PlaybackAnswer)
    ensures
        awaits_playback_answer(v, answer) <==> {
            ||| v.stage == PlaybackStage::FindGroup && answer is Group
            ||| v.stage == PlaybackStage::FindSelected && answer is Selected
            ||| v.stage == PlaybackStage::FindMapping && answer is Mapping
            ||| v.stage == PlaybackStage::AskServer && answer is Response
        },
{
}

/// A playback begins by looking for the group of the item that its path names, and asks one server
/// where the path names none.
pub proof fn a_playback_begins_with_the_item_of_its_path(
    path: Seq<char>,
    payload: PlaybackRequest,
    sessions: Option<Seq<(AuthorizationSession, Server)>>,
    can_repeat: bool,
)
    ensures
        ({
            let v = fresh_playback(path, payload, sessions, can_repeat);
            &&& v.stage == match item_id_among(path_segments(path)) {
                Some(_) => PlaybackStage::FindGroup,
                None => PlaybackStage::FallBack,
            }
            &&& v.item_id == item_id_among(path_segments(path))
            &&& v.payload == payload
            &&& v.sessions == sessions
            &&& v.can_repeat == can_repeat
            &&& v.place == 0
            &&& v.responses.len() == 0
        }),
{
}

proof fn lemma_all_are_kept(
    candidates: Seq<GroupedCandidate>,
    kept: spec_fn(GroupedCandidate) -> bool,
)
    requires
        forall|candidate: GroupedCandidate| #[trigger] kept(candidate),
    ensures
        candidates.filter(kept) == candidates,
    decreases candidates.len(),
{
    reveal(Seq::filter);
    if candidates.len() > 0 {
        lemma_all_are_kept(candidates.drop_last(), kept);
        assert(candidates.drop_last().push(candidates.last()) =~= candidates);
    } else {
        assert(candidates.filter(kept) =~= candidates);
    }
}

/// The servers are asked where the group has two members or more and the user's sessions are
/// known: all that have a session, unless the client has selected a version, whose server is then
/// looked for. In every other case, and where there is no such server or the request cannot be
/// sent again, one server is asked.
pub proof fn the_group_says_which_servers_may_be_asked(
    v: PlaybackView,
    group: Option<MediaDedupeGroup>,
)
    requires
        is_sound_playback(v),
        v.stage == PlaybackStage::FindGroup,
    ensures
        ({
            let next = after_playback_answer(v, PlaybackAnswer::Group(group));
            let shared = v.sessions is Some && group is Some && (group->0).members@.len() >= 2;
            let chooses = v.payload.media_source_id is Some;
            &&& next.item_id == v.item_id
            &&& next.payload == v.payload
            &&& next.sessions == v.sessions
            &&& next.can_repeat == v.can_repeat
            &&& next.responses.len() == 0
            &&& next.place == 0
            &&& shared ==> next.candidates == candidates_for((group->0).members@, v.sessions->0)
            &&& shared && !chooses ==> next.selected is None
            &&& next.stage == if !shared {
                PlaybackStage::FallBack
            } else if chooses {
                PlaybackStage::FindSelected
            } else if next.candidates.len() > 0 && v.can_repeat {
                PlaybackStage::AskServer
            } else {
                PlaybackStage::FallBack
            }
        }),
{
    if v.sessions is Some && group is Some && (group->0).members@.len() >= 2
        && v.payload.media_source_id is None {
        let none: Option<i64> = None;
        let listed = candidates_for((group->0).members@, v.sessions->0);
        let kept = |candidate: GroupedCandidate|
            none is None || candidate.server.id == none->0;
        lemma_all_are_kept(listed, kept);
    }
}

/// Once it is known which server has the selected version, exactly the candidates on it are asked,
/// in their order; where it is not known, all are. Without any, and where the request cannot be
/// sent again, one server is asked. A failed search fails the request.
pub proof fn the_selected_version_says_which_servers_are_asked(
    v: PlaybackView,
    selected: Option<i64>,
) -> (places: Seq<int>)
    requires
        is_sound_playback(v),
        v.stage == PlaybackStage::FindSelected,
    ensures
        are_places(
            places,
            v.candidates.len() as int,
            |k: int|
                selected is Some ==> v.candidates[k].server.id == selected->0,
        ),
        ({
            let next = after_playback_answer(v, PlaybackAnswer::Selected(Ok(selected)));
            &&& next.candidates.len() == places.len()
            &&& forall|i: int|
                0 <= i < places.len() ==> 0 <= #[trigger] places[i] < v.candidates.len()
                    && next.candidates[i] == v.candidates[places[i]]
            &&& next.item_id == v.item_id
            &&& next.payload == v.payload
            &&& next.sessions == v.sessions
            &&& next.can_repeat == v.can_repeat
            &&& next.selected == selected
            &&& next.responses.len() == 0
            &&& next.place == 0
            &&& next.stage == if places.len() == 0 || !v.can_repeat {
                PlaybackStage::FallBack
            } else if selected is Some {
                PlaybackStage::FindMapping
            } else {
                PlaybackStage::AskServer
            }
        }),
        after_playback_answer(v, PlaybackAnswer::Selected(Err(()))).stage == PlaybackStage::Fail(
            500,
        ),
{
    let kept = |candidate: GroupedCandidate|
        selected is None || candidate.server.id == selected->0;
    let places = filtering_keeps_what_is_wanted(v.candidates, kept);
    let before = |k: int| kept(v.candidates[k]);
    let chosen = |k: int| selected is Some ==> v.candidates[k].server.id == selected->0;
    assert forall|k: int| 0 <= k < v.candidates.len() implies #[trigger] before(k) == chosen(
        k,
    ) by {}
    lemma_same_places(places, v.candidates.len() as int, before, chosen);
    if places.len() > 0 {
        lemma_place_is_chosen(places, v.candidates.len() as int, chosen, 0);
        assert(v.candidates.filter(kept)[0] == v.candidates[places[0]]);
    }
    places
}

/// The own identifier of the selected version is asked for before its server is, and nothing else
/// changes by it. A failed search fails the request.
pub proof fn the_mapping_is_kept_for_the_server_in_turn(v: PlaybackView, mapped: Option<String>)
    requires
        is_sound_playback(v),
        v.stage == PlaybackStage::FindMapping,
    ensures
        ({
            let next = after_playback_answer(v, PlaybackAnswer::Mapping(Ok(mapped)));
            &&& next.stage == PlaybackStage::AskServer
            &&& next.mapped == mapped
            &&& next.item_id == v.item_id
            &&& next.payload == v.payload
            &&& next.sessions == v.sessions
            &&& next.can_repeat == v.can_repeat
            &&& next.selected == v.selected
            &&& next.candidates == v.candidates
            &&& next.place == v.place
            &&& next.responses == v.responses
        }),
        after_playback_answer(v, PlaybackAnswer::Mapping(Err(()))).stage == PlaybackStage::Fail(
            500,
        ),
{
}

/// What the server in turn is asked with is what the client said, but for the user, who is the
/// server's own where the client names one, and for the version: on the selected server the one
/// that was selected, by the server's own identifier where that is known, and on any other none.
pub proof fn each_server_is_asked_in_its_own_terms(v: PlaybackView)
    ensures
        ({
            let sent = asked_with(v);
            let candidate = v.candidates[v.place];
            let is_selected = v.selected is Some && v.selected->0 == candidate.server.id;
            &&& sent.rest == v.payload.rest
            &&& v.payload.user_id is Some ==> sent.user_id == Some(
                candidate.session.original_user_id,
            )
            &&& v.payload.user_id is None ==> sent.user_id is None
            &&& !is_selected || v.payload.media_source_id is None ==> sent.media_source_id is None
            &&& is_selected && v.payload.media_source_id is Some ==> sent.media_source_id
                == if v.mapped is Some {
                v.mapped
            } else {
                v.payload.media_source_id
            }
        }),
{
}

/// There are versions exactly where one of the responses has one.
pub proof fn there_are_versions_where_a_response_has_one(responses: Seq<PlaybackResponseView>)
    ensures
        all_sources(responses).len() > 0 <==> exists|i: int|
            0 <= i < responses.len() && (#[trigger] responses[i]).media_sources.len() > 0,
    decreases responses.len(),
{
    if responses.len() > 0 {
        let rest = responses.drop_last();
        there_are_versions_where_a_response_has_one(rest);
        if all_sources(rest).len() > 0 {
            let i = choose|i: int|
                0 <= i < rest.len() && (#[trigger] rest[i]).media_sources.len() > 0;
            assert(responses[i] == rest[i]);
        }
        if exists|i: int|
            0 <= i < responses.len() && (#[trigger] responses[i]).media_sources.len() > 0 {
            let i = choose|i: int|
                0 <= i < responses.len() && (#[trigger] responses[i]).media_sources.len() > 0;
            if i < rest.len() {
                assert(rest[i] == responses[i]);
            }
        }
    }
}

/// Whatever versions the server in turn has, the server behind it is next. Only behind the last
/// server does the playback come to something: to an answer exactly where a server has a version.
/// A server that fails ends it at once, with what its answer came to.
pub proof fn playback_is_asked_for_on_one_server_after_the_other(
    v: PlaybackView,
    answer: Result<PlaybackResponse, u16>,
)
    requires
        is_sound_playback(v),
        v.stage == PlaybackStage::AskServer,
    ensures
        ({
            let next = after_playback_answer(v, PlaybackAnswer::Response(answer));
            &&& next.item_id == v.item_id
            &&& next.payload == v.payload
            &&& next.sessions == v.sessions
            &&& next.can_repeat == v.can_repeat
            &&& next.selected == v.selected
            &&& next.candidates == v.candidates
            &&& match answer {
                Ok(response) => {
                    &&& next.place == v.place + 1
                    &&& next.mapped is None
                    &&& next.responses.len() == v.responses.len() + 1
                    &&& next.responses.drop_last() == v.responses
                    &&& next.responses.last() == named(
                        response@,
                        v.candidates[v.place].server.name@,
                    )
                    &&& next.stage == if v.place + 1 < v.candidates.len() {
                        if v.payload.media_source_id is Some && v.selected is Some && v.selected->0
                            == v.candidates[v.place + 1].server.id {
                            PlaybackStage::FindMapping
                        } else {
                            PlaybackStage::AskServer
                        }
                    } else if exists|i: int|
                        0 <= i < next.responses.len() && (
                        #[trigger] next.responses[i]).media_sources.len() > 0 {
                        PlaybackStage::Respond
                    } else {
                        PlaybackStage::FallBack
                    }
                },
                Err(status) => next.stage == PlaybackStage::Fail(status),
            }
        }),
{
    if let Ok(response) = answer {
        let next = after_playback_answer(v, PlaybackAnswer::Response(answer));
        assert(next.responses.drop_last() =~= v.responses);
        there_are_versions_where_a_response_has_one(next.responses);
    }
}

/// The playback once the servers in turn have answered one after the other, each with its response,
/// after the selected version has been looked up where that is waited for.
pub open spec fn after_responses(
    v: PlaybackView,
    mappings: Seq<Option<String>>,
    told: Seq<PlaybackResponse>,
) -> PlaybackView
    decreases told.len(),
{
    if told.len() == 0 {
        v
    } else {
        let before = after_responses(v, mappings, told.drop_last());
        let asking = if before.stage == PlaybackStage::FindMapping {
            after_playback_answer(before, PlaybackAnswer::Mapping(Ok(mappings[told.len() - 1])))
        } else {
            before
        };
        after_playback_answer(asking, PlaybackAnswer::Response(Ok(told.last())))
    }
}

/// A playback comes to an answer, or falls back, only once every one of its servers has answered.
/// Its responses are the answers of the servers, in their order, each with its versions named after
/// the server; and it comes to an answer exactly where one of them has a version.
pub proof fn every_server_is_asked_for_its_versions(
    v: PlaybackView,
    mappings: Seq<Option<String>>,
    told: Seq<PlaybackResponse>,
)
    requires
        is_sound_playback(v),
        v.stage == PlaybackStage::AskServer || v.stage == PlaybackStage::FindMapping,
        v.place == 0,
        told.len() <= v.candidates.len(),
    ensures
        ({
            let end = after_responses(v, mappings, told);
            &&& is_sound_playback(end)
            &&& end.candidates == v.candidates
            &&& end.payload == v.payload
            &&& end.selected == v.selected
            &&& end.place == told.len()
            &&& end.responses.len() == told.len()
            &&& forall|i: int|
                0 <= i < told.len() ==> #[trigger] end.responses[i] == named(
                    told[i]@,
                    v.candidates[i].server.name@,
                )
            &&& told.len() < v.candidates.len() ==> end.stage == PlaybackStage::AskServer
                || end.stage == PlaybackStage::FindMapping
            &&& told.len() == v.candidates.len() ==> end.stage == if exists|i: int|
                0 <= i < told.len() && (#[trigger] told[i]).media_sources@.len() > 0 {
                PlaybackStage::Respond
            } else {
                PlaybackStage::FallBack
            }
        }),
    decreases told.len(),
{
    let end = after_responses(v, mappings, told);
    if told.len() > 0 {
        let n = told.len() - 1;
        let rest = told.drop_last();
        every_server_is_asked_for_its_versions(v, mappings, rest);
        let before = after_responses(v, mappings, rest);
        let asking = if before.stage == PlaybackStage::FindMapping {
            after_playback_answer(before, PlaybackAnswer::Mapping(Ok(mappings[n])))
        } else {
            before
        };
        if before.stage == PlaybackStage::FindMapping {
            the_mapping_is_kept_for_the_server_in_turn(before, mappings[n]);
            a_playback_stays_sound(before, PlaybackAnswer::Mapping(Ok(mappings[n])));
        }
        let answer = PlaybackAnswer::Response(Ok(told[n]));
        playback_is_asked_for_on_one_server_after_the_other(asking, Ok(told[n]));
        a_playback_stays_sound(asking, answer);
        assert(end == after_playback_answer(asking, answer));
        assert forall|i: int| 0 <= i < told.len() implies #[trigger] end.responses[i] == named(
            told[i]@,
            v.candidates[i].server.name@,
        ) by {
            if i < n {
                assert(rest[i] == told[i]);
                assert(end.responses.drop_last()[i] == before.responses[i]);
            }
        }
        if exists|i: int|
            0 <= i < end.responses.len() && (#[trigger] end.responses[i]).media_sources.len() > 0 {
            let i = choose|i: int|
                0 <= i < end.responses.len() && (#[trigger] end.responses[i]).media_sources.len()
                    > 0;
            naming_versions_keeps_the_response(told[i]@, v.candidates[i].server.name@, 0);
            assert(told[i].media_sources@.len() > 0);
        }
        if exists|i: int| 0 <= i < told.len() && (#[trigger] told[i]).media_sources@.len() > 0 {
            let i = choose|i: int|
                0 <= i < told.len() && (#[trigger] told[i]).media_sources@.len() > 0;
            naming_versions_keeps_the_response(told[i]@, v.candidates[i].server.name@, 0);
            assert(end.responses[i].media_sources.len() > 0);
        }
    }
}

} // verus!

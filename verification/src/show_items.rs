//! The seasons and episodes of a show: from one server, or from every server that has the show.
//! It says what it waits for, and goes on once it is told.
use vstd::prelude::*;
use vstd::utf8::encode_utf8;

use crate::federated::lacks_sessions;
use crate::items::{
    every_server_that_may_have_the_season_is_asked, extract_show_series_id_from_path,
    is_asked_about_season, is_first_session, is_shared, may_have_season, series_id_among,
    show_sessions, show_targets,
};
use crate::media_storage_service::{MediaDedupeGroup, MediaDedupeMember};
use crate::models::{
    copy_optional, AuthorizationSession, Server, STATUS_BAD_REQUEST, STATUS_INTERNAL_SERVER_ERROR,
    STATUS_UNAUTHORIZED,
};
use crate::order::{are_places, lemma_same_places};
use crate::query::{extract_query_parameter, form_pairs, parameter};
use crate::sessions::require_sessions;
use crate::text::{path_segments, text_option};

verus! {

/// What a request for the items of a show waits for, or what it came to.
#[derive(Debug, Clone, Copy, PartialEq, Eq, Structural)]
pub enum ShowStage {
    /// The group of the series is looked up.
    FindGroup,
    /// The request is read.
    ReadRequest,
    /// The group of the season is looked up.
    FindSeasonGroup,
    /// The server of the season is looked up.
    FindSeasonServer,
    /// The targets are asked.
    Fetch,
    /// No server can be asked: there are no items.
    NoItems,
    /// One server is asked.
    SingleServer,
    /// The request fails with this status.
    Fail(u16),
}

/// What a request says: the season that it names, and the sessions that it comes with.
#[derive(Debug)]
pub struct ShowRequest {
    pub season_id: Option<String>,
    pub sessions: Option<Vec<(AuthorizationSession, Server)>>,
}

/// What a request with the given query and sessions says.
pub fn read_show_request(
    query: Option<&str>,
    sessions: Option<Vec<(AuthorizationSession, Server)>>,
) -> (r: ShowRequest)
    ensures
        text_option(r.season_id) == match query {
            Some(text) => parameter(form_pairs(encode_utf8(text@)), "SeasonId"@),
            None => None,
        },
        r.sessions == sessions,
{
    let season_id: Option<String> = match query {
        Some(text) => extract_query_parameter(text, "SeasonId"),
        None => None,
    };
    ShowRequest { season_id, sessions }
}

/// What a request for the items of a show is told.
#[derive(Debug)]
pub enum ShowAnswer {
    /// The group of the series.
    Group(Option<MediaDedupeGroup>),
    /// What the request says; an error where it could not be read.
    Request(Result<ShowRequest, ()>),
    /// The group of the season.
    SeasonGroup(Option<MediaDedupeGroup>),
    /// The server of the season; an error where it could not be looked up.
    SeasonServer(Result<Option<i64>, ()>),
}

/// A request for the items of a show as values.
#[verifier::ext_equal]
pub struct ShowView {
    pub stage: ShowStage,
    pub series_id: Option<Seq<char>>,
    pub members: Seq<MediaDedupeMember>,
    pub season_id: Option<Seq<char>>,
    pub sessions: Seq<(AuthorizationSession, Server)>,
    pub targets: Seq<(AuthorizationSession, Server)>,
}

/// A request that has not begun. One server is asked where the path is not about a show's seasons
/// or episodes.
pub open spec fn fresh_show(path: Seq<char>) -> ShowView {
    let series_id = series_id_among(path_segments(path));
    ShowView {
        stage: if series_id is Some {
            ShowStage::FindGroup
        } else {
            ShowStage::SingleServer
        },
        series_id,
        members: Seq::empty(),
        season_id: None,
        sessions: Seq::empty(),
        targets: Seq::empty(),
    }
}

/// The request with its targets: the servers that have the show and are asked about the season.
pub open spec fn with_targets(
    v: ShowView,
    season_group: Option<MediaDedupeGroup>,
    season_server: Option<i64>,
) -> ShowView {
    let targets = show_sessions(v.members, v.sessions).filter(
        |target: (AuthorizationSession, Server)|
            is_asked_about_season(target.1.id, season_group, season_server),
    );
    ShowView {
        targets,
        stage: if targets.len() == 0 {
            ShowStage::NoItems
        } else {
            ShowStage::Fetch
        },
        ..v
    }
}

/// The request once it has been read.
pub open spec fn after_request(v: ShowView, request: ShowRequest) -> ShowView {
    if lacks_sessions(request.sessions) {
        ShowView { stage: ShowStage::Fail(STATUS_UNAUTHORIZED), ..v }
    } else {
        let read = ShowView {
            sessions: (request.sessions->0)@,
            season_id: text_option(request.season_id),
            ..v
        };
        if request.season_id is Some {
            ShowView { stage: ShowStage::FindSeasonGroup, ..read }
        } else {
            with_targets(read, None, None)
        }
    }
}

/// The request once it has been told something that it waits for.
pub open spec fn after_show_answer(v: ShowView, answer: ShowAnswer) -> ShowView {
    match answer {
        ShowAnswer::Group(group) => if is_shared(group) {
            ShowView { members: (group->0).members@, stage: ShowStage::ReadRequest, ..v }
        } else {
            ShowView { stage: ShowStage::SingleServer, ..v }
        },
        ShowAnswer::Request(Ok(request)) => after_request(v, request),
        ShowAnswer::Request(Err(_)) => ShowView {
            stage: ShowStage::Fail(STATUS_BAD_REQUEST),
            ..v
        },
        ShowAnswer::SeasonGroup(group) => if group is Some {
            with_targets(v, group, None)
        } else {
            ShowView { stage: ShowStage::FindSeasonServer, ..v }
        },
        ShowAnswer::SeasonServer(Ok(server)) => with_targets(v, None, server),
        ShowAnswer::SeasonServer(Err(_)) => ShowView {
            stage: ShowStage::Fail(STATUS_INTERNAL_SERVER_ERROR),
            ..v
        },
    }
}

/// Whether the answer is one that the request waits for.
pub open spec fn awaits_show_answer(v: ShowView, answer: ShowAnswer) -> bool {
    match answer {
        ShowAnswer::Group(_) => v.stage == ShowStage::FindGroup,
        ShowAnswer::Request(_) => v.stage == ShowStage::ReadRequest,
        ShowAnswer::SeasonGroup(_) => v.stage == ShowStage::FindSeasonGroup,
        ShowAnswer::SeasonServer(_) => v.stage == ShowStage::FindSeasonServer,
    }
}

/// A request for the items of a show from its start to its outcome.
#[derive(Debug)]
pub struct ShowItems {
    stage: ShowStage,
    series_id: Option<String>,
    members: Vec<MediaDedupeMember>,
    season_id: Option<String>,
    sessions: Vec<(AuthorizationSession, Server)>,
    targets: Vec<(AuthorizationSession, Server)>,
}

impl View for ShowItems {
    type V = ShowView;

    closed spec fn view(&self) -> ShowView {
        ShowView {
            stage: self.stage,
            series_id: text_option(self.series_id),
            members: self.members@,
            season_id: text_option(self.season_id),
            sessions: self.sessions@,
            targets: self.targets@,
        }
    }
}

impl ShowItems {
    /// A request that has not begun.
    pub fn get_items(path: &str) -> (r: Self)
        ensures
            r@ == fresh_show(path@),
    {
        let series_id: Option<String> = extract_show_series_id_from_path(path);
        let stage: ShowStage = if series_id.is_some() {
            ShowStage::FindGroup
        } else {
            ShowStage::SingleServer
        };
        let r: ShowItems = ShowItems {
            stage,
            series_id,
            members: Vec::new(),
            season_id: None,
            sessions: Vec::new(),
            targets: Vec::new(),
        };
        assert(r@ =~= fresh_show(path@));
        r
    }

    fn set_targets(
        &mut self,
        season_group: &Option<MediaDedupeGroup>,
        season_server: Option<i64>,
    )
        ensures
            final(self)@ == with_targets(old(self)@, *season_group, season_server),
    {
        self.targets = show_targets(&self.members, &self.sessions, season_group, season_server);
        if self.targets.len() == 0 {
            self.stage = ShowStage::NoItems;
        } else {
            self.stage = ShowStage::Fetch;
        }
        assert(self@ =~= with_targets(old(self)@, *season_group, season_server));
    }

    fn take_request(&mut self, request: ShowRequest)
        ensures
            final(self)@ == after_request(old(self)@, request),
    {
        let ghost v = self@;
        match require_sessions(request.sessions) {
            Ok(sessions) => {
                let named: bool = request.season_id.is_some();
                self.sessions = sessions;
                self.season_id = request.season_id;
                assert(self@ =~= (ShowView {
                    sessions: (request.sessions->0)@,
                    season_id: text_option(request.season_id),
                    ..v
                }));
                if named {
                    self.stage = ShowStage::FindSeasonGroup;
                    assert(self@ =~= after_request(v, request));
                } else {
                    self.set_targets(&None, None);
                }
            },
            Err(status) => {
                self.stage = ShowStage::Fail(status);
                assert(self@ =~= after_request(v, request));
            },
        }
    }

    /// What the request waits for, or what it came to.
    pub fn stage(&self) -> (r: ShowStage)
        ensures
            r == self@.stage,
    {
        self.stage
    }

    /// The series that the group is looked up of.
    pub fn series_id(&self) -> (r: Option<String>)
        ensures
            text_option(r) == self@.series_id,
    {
        copy_optional(&self.series_id)
    }

    /// The season that the group and the server are looked up of.
    pub fn season_id(&self) -> (r: Option<String>)
        ensures
            text_option(r) == self@.season_id,
    {
        copy_optional(&self.season_id)
    }

    /// The servers that are asked.
    pub fn into_targets(self) -> (r: Vec<(AuthorizationSession, Server)>)
        ensures
            r@ == self@.targets,
    {
        self.targets
    }

    /// Whether the request waits for the answer.
    pub fn accepts(&self, answer: &ShowAnswer) -> (r: bool)
        ensures
            r == awaits_show_answer(self@, *answer),
    {
        match answer {
            ShowAnswer::Group(_) => self.stage == ShowStage::FindGroup,
            ShowAnswer::Request(_) => self.stage == ShowStage::ReadRequest,
            ShowAnswer::SeasonGroup(_) => self.stage == ShowStage::FindSeasonGroup,
            ShowAnswer::SeasonServer(_) => self.stage == ShowStage::FindSeasonServer,
        }
    }

    /// Tells the request what it waits for.
    pub fn step(&mut self, answer: ShowAnswer)
        requires
            awaits_show_answer(old(self)@, answer),
        ensures
            final(self)@ == after_show_answer(old(self)@, answer),
    {
        let ghost v = self@;
        match answer {
            ShowAnswer::Group(group) => {
                let mut stage: ShowStage = ShowStage::SingleServer;
                if let Some(found) = group {
                    if found.members.len() >= 2 {
                        self.members = found.members;
                        stage = ShowStage::ReadRequest;
                    }
                }
                self.stage = stage;
                assert(self@ =~= after_show_answer(v, answer));
            },
            ShowAnswer::Request(Ok(request)) => self.take_request(request),
            ShowAnswer::Request(Err(_)) => {
                self.stage = ShowStage::Fail(STATUS_BAD_REQUEST);
                assert(self@ =~= after_show_answer(v, answer));
            },
            ShowAnswer::SeasonGroup(group) => {
                if group.is_some() {
                    self.set_targets(&group, None);
                } else {
                    self.stage = ShowStage::FindSeasonServer;
                    assert(self@ =~= after_show_answer(v, answer));
                }
            },
            ShowAnswer::SeasonServer(Ok(server)) => self.set_targets(&None, server),
            ShowAnswer::SeasonServer(Err(_)) => {
                self.stage = ShowStage::Fail(STATUS_INTERNAL_SERVER_ERROR);
                assert(self@ =~= after_show_answer(v, answer));
            },
        }
    }
}

/// How far a request has come.
pub open spec fn show_progress(stage: ShowStage) -> int {
    match stage {
        ShowStage::FindGroup => 0,
        ShowStage::ReadRequest => 1,
        ShowStage::FindSeasonGroup => 2,
        ShowStage::FindSeasonServer => 3,
        _ => 4,
    }
}

/// Every answer moves a request on.
pub proof fn every_answer_moves_a_show_on(v: ShowView, answer: ShowAnswer)
    requires
        awaits_show_answer(v, answer),
    ensures
        show_progress(v.stage) < show_progress(after_show_answer(v, answer).stage),
{
}

/// Where the servers that share a season are known, no other server is asked about it.
pub proof fn a_season_is_asked_for_where_it_is(
    v: ShowView,
    season_group: Option<MediaDedupeGroup>,
    season_server: Option<i64>,
    i: int,
)
    requires
        0 <= i < with_targets(v, season_group, season_server).targets.len(),
    ensures
        is_asked_about_season(
            with_targets(v, season_group, season_server).targets[i].1.id,
            season_group,
            season_server,
        ),
{
    let asked = |target: (AuthorizationSession, Server)|
        is_asked_about_season(target.1.id, season_group, season_server);
    show_sessions(v.members, v.sessions).lemma_filter_pred(asked, i);
}

/// A request for the items of a show waits for one thing at a time, and once it has come to
/// something it waits for nothing.
pub proof fn a_show_waits_for_one_thing(v: ShowView, answer: ShowAnswer)
    ensures
        awaits_show_answer(v, answer) <==> {
            ||| v.stage == ShowStage::FindGroup && answer is Group
            ||| v.stage == ShowStage::ReadRequest && answer is Request
            ||| v.stage == ShowStage::FindSeasonGroup && answer is SeasonGroup
            ||| v.stage == ShowStage::FindSeasonServer && answer is SeasonServer
        },
{
}

/// A request begins by looking for the group of the series that its path names, and asks one
/// server where the path names none. Many servers are asked where the group has two members or
/// more.
pub proof fn only_a_shared_show_is_asked_for_on_many_servers(
    path: Seq<char>,
    v: ShowView,
    group: Option<MediaDedupeGroup>,
)
    ensures
        fresh_show(path).series_id == series_id_among(path_segments(path)),
        fresh_show(path).stage == match series_id_among(path_segments(path)) {
            Some(_) => ShowStage::FindGroup,
            None => ShowStage::SingleServer,
        },
        ({
            let next = after_show_answer(v, ShowAnswer::Group(group));
            let shared = group is Some && (group->0).members@.len() >= 2;
            &&& shared ==> next.members == (group->0).members@
            &&& next.stage == if shared {
                ShowStage::ReadRequest
            } else {
                ShowStage::SingleServer
            }
            &&& next.series_id == v.series_id
        }),
{
}

/// The targets are asked where there is one; else there are no items.
pub open spec fn is_ready(v: ShowView) -> bool {
    v.stage == if v.targets.len() > 0 {
        ShowStage::Fetch
    } else {
        ShowStage::NoItems
    }
}

/// Whether the targets are the servers that have the show and may have the season: for each member
/// at one of these places the first session on its server.
pub open spec fn are_targets_at(v: ShowView, places: Seq<int>) -> bool {
    &&& v.targets.len() == places.len()
    &&& forall|i: int|
        0 <= i < places.len() ==> {
            &&& 0 <= #[trigger] places[i] < v.members.len()
            &&& exists|j: int| #[trigger]
                is_first_session(v.sessions, j, v.members[places[i]].server_id) && v.targets[i]
                    == v.sessions[j]
        }
}

/// A request without a session is not authorized, and one that cannot be read is a bad one. Where
/// it names no season, every server that has the show and a session is asked; where it names one,
/// the group of the season is looked for.
pub proof fn a_show_without_a_season_is_asked_for_everywhere(
    v: ShowView,
    request: ShowRequest,
) -> (places: Seq<int>)
    ensures
        after_show_answer(v, ShowAnswer::Request(Err(()))).stage == ShowStage::Fail(400),
        request.sessions is None || (request.sessions->0)@.len() == 0 ==> after_show_answer(
            v,
            ShowAnswer::Request(Ok(request)),
        ).stage == ShowStage::Fail(401),
        request.sessions is Some && (request.sessions->0)@.len() > 0 ==> {
            let next = after_show_answer(v, ShowAnswer::Request(Ok(request)));
            &&& next.sessions == (request.sessions->0)@
            &&& next.members == v.members
            &&& next.series_id == v.series_id
            &&& next.season_id == text_option(request.season_id)
            &&& request.season_id is Some ==> next.stage == ShowStage::FindSeasonGroup
            &&& request.season_id is None ==> {
                &&& is_ready(next)
                &&& are_targets_at(next, places)
                &&& are_places(
                    places,
                    v.members.len() as int,
                    |k: int|
                        exists|j: int|
                            0 <= j < next.sessions.len() && (#[trigger] next.sessions[j]).1.id
                                == v.members[k].server_id,
                )
            }
        },
{
    if request.sessions is Some && (request.sessions->0)@.len() > 0 {
        let sessions = (request.sessions->0)@;
        let next = after_show_answer(v, ShowAnswer::Request(Ok(request)));
        let places = every_server_that_may_have_the_season_is_asked(
            v.members,
            sessions,
            None,
            None,
        );
        let before = |k: int|
            (exists|j: int|
                0 <= j < sessions.len() && (#[trigger] sessions[j]).1.id == v.members[k].server_id)
                && may_have_season(v.members[k].server_id, None, None);
        let chosen = |k: int|
            exists|j: int|
                0 <= j < next.sessions.len() && (#[trigger] next.sessions[j]).1.id
                    == v.members[k].server_id;
        assert forall|k: int| 0 <= k < v.members.len() implies #[trigger] before(k) == chosen(
            k,
        ) by {}
        lemma_same_places(places, v.members.len() as int, before, chosen);
        places
    } else {
        Seq::empty()
    }
}

/// Where the season has a group, the show's servers that are in it are asked, and no other.
/// Without one, the server of the season is looked for.
pub proof fn a_shared_season_is_asked_for_on_all_its_servers(
    v: ShowView,
    season_group: Option<MediaDedupeGroup>,
) -> (places: Seq<int>)
    ensures
        ({
            let next = after_show_answer(v, ShowAnswer::SeasonGroup(season_group));
            &&& next.sessions == v.sessions
            &&& next.members == v.members
            &&& next.series_id == v.series_id
            &&& next.season_id == v.season_id
            &&& season_group is None ==> next.stage == ShowStage::FindSeasonServer
            &&& season_group is Some ==> {
                &&& is_ready(next)
                &&& are_targets_at(next, places)
                &&& are_places(
                    places,
                    v.members.len() as int,
                    |k: int|
                        (exists|j: int|
                            0 <= j < v.sessions.len() && (#[trigger] v.sessions[j]).1.id
                                == v.members[k].server_id) && (exists|i: int|
                            0 <= i < (season_group->0).members@.len() && (
                            #[trigger] (season_group->0).members@[i]).server_id
                                == v.members[k].server_id),
                )
            }
        }),
{
    let places = every_server_that_may_have_the_season_is_asked(
        v.members,
        v.sessions,
        season_group,
        None,
    );
    if season_group is Some {
        let before = |k: int|
            (exists|j: int|
                0 <= j < v.sessions.len() && (#[trigger] v.sessions[j]).1.id
                    == v.members[k].server_id) && may_have_season(
                v.members[k].server_id,
                season_group,
                None,
            );
        let chosen = |k: int|
            (exists|j: int|
                0 <= j < v.sessions.len() && (#[trigger] v.sessions[j]).1.id
                    == v.members[k].server_id) && (exists|i: int|
                0 <= i < (season_group->0).members@.len() && (
                #[trigger] (season_group->0).members@[i]).server_id == v.members[k].server_id);
        assert forall|k: int| 0 <= k < v.members.len() implies #[trigger] before(k) == chosen(
            k,
        ) by {}
        lemma_same_places(places, v.members.len() as int, before, chosen);
    }
    places
}

/// Where the server of a season without a group is known, it is the only one of the show's servers
/// that is asked; where it is not, all are. A failed search fails the request.
pub proof fn a_season_of_one_server_is_asked_for_there(
    v: ShowView,
    season_server: Option<i64>,
) -> (places: Seq<int>)
    ensures
        after_show_answer(v, ShowAnswer::SeasonServer(Err(()))).stage == ShowStage::Fail(500),
        ({
            let next = after_show_answer(v, ShowAnswer::SeasonServer(Ok(season_server)));
            &&& next.sessions == v.sessions
            &&& next.members == v.members
            &&& next.series_id == v.series_id
            &&& next.season_id == v.season_id
            &&& is_ready(next)
            &&& are_targets_at(next, places)
        }),
        are_places(
            places,
            v.members.len() as int,
            |k: int|
                (exists|j: int|
                    0 <= j < v.sessions.len() && (#[trigger] v.sessions[j]).1.id
                        == v.members[k].server_id) && (season_server is Some ==> season_server->0
                    == v.members[k].server_id),
        ),
{
    let places = every_server_that_may_have_the_season_is_asked(
        v.members,
        v.sessions,
        None,
        season_server,
    );
    let before = |k: int|
        (exists|j: int|
            0 <= j < v.sessions.len() && (#[trigger] v.sessions[j]).1.id
                == v.members[k].server_id) && may_have_season(
            v.members[k].server_id,
            None,
            season_server,
        );
    let chosen = |k: int|
        (exists|j: int|
            0 <= j < v.sessions.len() && (#[trigger] v.sessions[j]).1.id
                == v.members[k].server_id) && (season_server is Some ==> season_server->0
            == v.members[k].server_id);
    assert forall|k: int| 0 <= k < v.members.len() implies #[trigger] before(k) == chosen(k) by {}
    lemma_same_places(places, v.members.len() as int, before, chosen);
    places
}

} // verus!

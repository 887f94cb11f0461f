//! Collecting the players of the lobby from the League client: the order of
//! the requests, what each answer adds, and when the collection is over.
//! The requests themselves are made by the caller, which hands each answer
//! back (`None` for a failed request).

use vstd::prelude::*;
use crate::json::Json;
use crate::lobby::{
    champ_select_team_identities, chat_game_keys, chat_tag_keys, cleaned_players, collect_players,
    extract_champ_select_players, extract_lobby_members_players, finish_players, identity_view,
    member_list, member_name_keys, member_tag_keys, merge_all, merge_players, my_team,
    participant_list, placeholder_puuids, player_from_puuid_lookup, player_from_summoner_lookup,
    players_view, summoner_player, team_identities, unresolved_puuids, ChampSelectIdentity,
    LobbyPlayer, PlayerView,
};

verus! {

/// Where the collection stands.
#[derive(Debug, PartialEq, Eq, Structural, Clone, Copy)]
pub enum CollectStage {
    /// Chat participants through the Riot client's own port.
    RiotChat,
    /// Chat participants through the League client's port.
    Chat,
    /// Lobby members.
    Members,
    /// The champion-select session (the team's identities).
    Session,
    /// Looking up the team's identities one by one.
    Identities,
    /// Looking up players whose name is still a placeholder.
    Resolve,
    /// Nothing more to ask.
    Done,
}

/// A request the collection needs answered.
#[derive(Debug)]
pub enum LcuRequest {
    /// `/chat/v5/participants` on the Riot client's port.
    RiotChatParticipants,
    /// `/chat/v5/participants` on the League client's port.
    ChatParticipants,
    /// `/lol-lobby/v2/lobby/members`.
    LobbyMembers,
    /// `/lol-champ-select/v1/session`.
    ChampSelectSession,
    /// `/lol-summoner/v2/summoners/puuid/{puuid}`.
    PlayerByPuuid(String),
    /// `/lol-summoner/v1/summoners/{id}`.
    PlayerBySummonerId(u64),
}

/// The text of a request.
pub enum RequestView {
    RiotChatParticipants,
    ChatParticipants,
    LobbyMembers,
    ChampSelectSession,
    PlayerByPuuid(Seq<char>),
    PlayerBySummonerId(u64),
}

impl View for LcuRequest {
    type V = RequestView;

    open spec fn view(&self) -> RequestView {
        match self {
            LcuRequest::RiotChatParticipants => RequestView::RiotChatParticipants,
            LcuRequest::ChatParticipants => RequestView::ChatParticipants,
            LcuRequest::LobbyMembers => RequestView::LobbyMembers,
            LcuRequest::ChampSelectSession => RequestView::ChampSelectSession,
            LcuRequest::PlayerByPuuid(u) => RequestView::PlayerByPuuid(u@),
            LcuRequest::PlayerBySummonerId(n) => RequestView::PlayerBySummonerId(*n),
        }
    }
}

/// The view of an optional request.
pub open spec fn opt_request(r: Option<LcuRequest>) -> Option<RequestView> {
    match r {
        Some(q) => Some(q@),
        None => None,
    }
}

/// The state of a collection: the players so far, the team's identities
/// and the position among them (`by_summoner`: the identity's summoner id
/// is asked for next), the players found by lookups and not merged yet, and
/// the PUUIDs to resolve.
pub struct CollectorView {
    pub stage: CollectStage,
    pub combined: Seq<PlayerView>,
    pub identities: Seq<(Option<Seq<char>>, Option<u64>)>,
    pub index: int,
    pub by_summoner: bool,
    pub enriched: Seq<PlayerView>,
    pub pending: Seq<Seq<char>>,
}

/// The players of a chat participants answer.
pub open spec fn chat_players(v: Json) -> Seq<PlayerView> {
    collect_players(participant_list(v), true, chat_game_keys(), chat_tag_keys(), seq!["name"@])
}

/// The players of a lobby members answer.
pub open spec fn member_players(v: Json) -> Seq<PlayerView> {
    collect_players(member_list(v), false, seq!["gameName"@, "game_name"@], member_tag_keys(), member_name_keys())
}

/// The collection before any answer: it starts with the Riot client's port
/// when that port is known.
pub open spec fn initial(has_riot_client: bool) -> CollectorView {
    CollectorView {
        stage: if has_riot_client { CollectStage::RiotChat } else { CollectStage::Chat },
        combined: seq![],
        identities: seq![],
        index: 0,
        by_summoner: false,
        enriched: seq![],
        pending: seq![],
    }
}

/// The position is within the list the stage walks.
pub open spec fn bounded(s: CollectorView) -> bool {
    &&& 0 <= s.index
    &&& s.stage == CollectStage::Identities ==> s.index <= s.identities.len()
    &&& s.stage == CollectStage::Resolve ==> s.index <= s.pending.len()
}

/// The stage has a request to make, or is over.
pub open spec fn settled(s: CollectorView) -> bool {
    &&& bounded(s)
    &&& s.stage == CollectStage::Identities ==> {
        &&& s.index < s.identities.len()
        &&& if s.by_summoner {
            s.identities[s.index].1 is Some
        } else {
            s.identities[s.index].0 is Some
        }
    }
    &&& s.stage == CollectStage::Resolve ==> s.index < s.pending.len()
}

/// The lookups of the team are over: their players are merged in, and the
/// players still named by a placeholder are to be resolved by PUUID.
pub open spec fn enter_resolve(s: CollectorView) -> CollectorView {
    let c = merge_all(s.combined, s.enriched);
    CollectorView {
        stage: CollectStage::Resolve,
        combined: c,
        index: 0,
        by_summoner: false,
        enriched: seq![],
        pending: placeholder_puuids(c),
        ..s
    }
}

/// The collection is over once every pending PUUID was asked for; what was
/// found is merged in.
pub open spec fn settle_resolve(s: CollectorView) -> CollectorView {
    if s.index >= s.pending.len() {
        CollectorView {
            stage: CollectStage::Done,
            combined: merge_all(s.combined, s.enriched),
            index: 0,
            enriched: seq![],
            ..s
        }
    } else {
        s
    }
}

/// Moves past what needs no request: identities with nothing left to look up
/// by, and stages with nothing left to walk.
pub open spec fn settle(s: CollectorView) -> CollectorView
    decreases s.identities.len() - s.index,
{
    if s.stage == CollectStage::Identities {
        if s.index < 0 || s.index >= s.identities.len() {
            settle_resolve(enter_resolve(s))
        } else if !s.by_summoner && s.identities[s.index].0 is Some {
            s
        } else if s.identities[s.index].1 is Some {
            CollectorView { by_summoner: true, ..s }
        } else {
            settle(CollectorView { index: s.index + 1, by_summoner: false, ..s })
        }
    } else if s.stage == CollectStage::Resolve {
        settle_resolve(s)
    } else {
        s
    }
}

/// What one answer does, before moving past what needs no request.
pub open spec fn absorbed(s: CollectorView, reply: Option<Json>) -> CollectorView {
    match s.stage {
        CollectStage::RiotChat => match reply {
            Some(v) => CollectorView {
                stage: CollectStage::Members,
                combined: merge_all(s.combined, chat_players(v)),
                ..s
            },
            None => CollectorView { stage: CollectStage::Chat, ..s },
        },
        CollectStage::Chat => CollectorView {
            stage: CollectStage::Members,
            combined: match reply {
                Some(v) => merge_all(s.combined, chat_players(v)),
                None => s.combined,
            },
            ..s
        },
        CollectStage::Members => CollectorView {
            stage: CollectStage::Session,
            combined: match reply {
                Some(v) => merge_all(s.combined, member_players(v)),
                None => s.combined,
            },
            ..s
        },
        CollectStage::Session => CollectorView {
            stage: CollectStage::Identities,
            identities: match reply {
                Some(v) => team_identities(my_team(v)),
                None => seq![],
            },
            index: 0,
            by_summoner: false,
            enriched: seq![],
            ..s
        },
        CollectStage::Identities => {
            let id = s.identities[s.index];
            if !s.by_summoner {
                match reply {
                    Some(v) => CollectorView {
                        index: s.index + 1,
                        by_summoner: false,
                        enriched: s.enriched.push(PlayerView { puuid: id.0, ..summoner_player(v) }),
                        ..s
                    },
                    None => CollectorView { by_summoner: true, ..s },
                }
            } else {
                CollectorView {
                    index: s.index + 1,
                    by_summoner: false,
                    enriched: match reply {
                        Some(v) => s.enriched.push(summoner_player(v)),
                        None => s.enriched,
                    },
                    ..s
                }
            }
        },
        CollectStage::Resolve => CollectorView {
            index: s.index + 1,
            enriched: match reply {
                Some(v) => s.enriched.push(PlayerView { puuid: Some(s.pending[s.index]), ..summoner_player(v) }),
                None => s.enriched,
            },
            ..s
        },
        CollectStage::Done => s,
    }
}

/// The collection after one answer.
pub open spec fn step(s: CollectorView, reply: Option<Json>) -> CollectorView {
    settle(absorbed(s, reply))
}

/// The request the collection makes next, none once it is over.
pub open spec fn request_of(s: CollectorView) -> Option<RequestView> {
    match s.stage {
        CollectStage::RiotChat => Some(RequestView::RiotChatParticipants),
        CollectStage::Chat => Some(RequestView::ChatParticipants),
        CollectStage::Members => Some(RequestView::LobbyMembers),
        CollectStage::Session => Some(RequestView::ChampSelectSession),
        CollectStage::Identities => if s.by_summoner {
            Some(RequestView::PlayerBySummonerId(s.identities[s.index].1.unwrap()))
        } else {
            Some(RequestView::PlayerByPuuid(s.identities[s.index].0.unwrap()))
        },
        CollectStage::Resolve => Some(RequestView::PlayerByPuuid(s.pending[s.index])),
        CollectStage::Done => None,
    }
}

/// How far a stage is from the end.
pub open spec fn stage_rank(st: CollectStage) -> nat {
    match st {
        CollectStage::RiotChat => 6,
        CollectStage::Chat => 5,
        CollectStage::Members => 4,
        CollectStage::Session => 3,
        CollectStage::Identities => 2,
        CollectStage::Resolve => 1,
        CollectStage::Done => 0,
    }
}

/// The requests left within the stage: two per identity still to look up
/// (one when only its summoner id is left), one per PUUID to resolve.
pub open spec fn remaining(s: CollectorView) -> int {
    if s.stage == CollectStage::Identities {
        2 * (s.identities.len() - s.index) - (if s.by_summoner { 1int } else { 0int })
    } else if s.stage == CollectStage::Resolve {
        s.pending.len() - s.index
    } else {
        0
    }
}

/// `t` comes strictly after `s`: an earlier stage, or the same stage with
/// fewer requests left.
pub open spec fn moved_on(t: CollectorView, s: CollectorView) -> bool {
    ||| stage_rank(t.stage) < stage_rank(s.stage)
    ||| stage_rank(t.stage) == stage_rank(s.stage) && remaining(t) < remaining(s)
}

proof fn lemma_settle_no_back(t: CollectorView)
    requires
        bounded(t),
    ensures
        stage_rank(settle(t).stage) < stage_rank(t.stage)
            || (stage_rank(settle(t).stage) == stage_rank(t.stage) && remaining(settle(t)) <= remaining(t)),
    decreases t.identities.len() - t.index,
{
    if t.stage == CollectStage::Identities && 0 <= t.index < t.identities.len() {
        if !t.by_summoner && t.identities[t.index].0 is Some {
        } else if t.identities[t.index].1 is Some {
        } else {
            let u = CollectorView { index: t.index + 1, by_summoner: false, ..t };
            lemma_settle_no_back(u);
        }
    }
}

/// Each answer moves an unfinished collection strictly forward (to a later
/// stage, or to fewer requests left in its stage), so answering requests
/// until none is left always ends.
pub proof fn lemma_collection_moves_on(s: CollectorView, reply: Option<Json>)
    requires
        settled(s),
        s.stage != CollectStage::Done,
    ensures
        moved_on(step(s, reply), s),
{
    let a = absorbed(s, reply);
    assert(bounded(a));
    assert(moved_on(a, s));
    lemma_settle_no_back(a);
}

struct Progress {
    stage: CollectStage,
    combined: Vec<LobbyPlayer>,
    identities: Vec<ChampSelectIdentity>,
    index: usize,
    by_summoner: bool,
    enriched: Vec<LobbyPlayer>,
    pending: Vec<String>,
}

impl View for Progress {
    type V = CollectorView;

    closed spec fn view(&self) -> CollectorView {
        CollectorView {
            stage: self.stage,
            combined: players_view(self.combined@),
            identities: self.identities@.map_values(|i: ChampSelectIdentity| identity_view(i)),
            index: self.index as int,
            by_summoner: self.by_summoner,
            enriched: players_view(self.enriched@),
            pending: self.pending@.map_values(|u: String| u@),
        }
    }
}

/// The collection of the lobby's players, one answered request at a time.
pub struct PlayerCollector {
    state: Progress,
}

impl View for PlayerCollector {
    type V = CollectorView;

    closed spec fn view(&self) -> CollectorView {
        self.state@
    }
}

fn settle_resolve_progress(p: Progress) -> (r: Progress)
    requires
        p@.stage == CollectStage::Resolve,
        bounded(p@),
    ensures
        r@ == settle_resolve(p@),
        settled(r@),
{
    if p.index >= p.pending.len() {
        let mut combined = p.combined;
        merge_players(&mut combined, p.enriched);
        let r = Progress {
            stage: CollectStage::Done,
            combined,
            identities: p.identities,
            index: 0,
            by_summoner: p.by_summoner,
            enriched: Vec::new(),
            pending: p.pending,
        };
        assert(r@.enriched =~= Seq::<PlayerView>::empty());
        r
    } else {
        p
    }
}

fn settle_progress(p: Progress) -> (r: Progress)
    requires
        bounded(p@),
    ensures
        r@ == settle(p@),
        settled(r@),
    decreases p.identities@.len() - p.index,
{
    let ghost s = p@;
    if p.stage == CollectStage::Identities {
        if p.index >= p.identities.len() {
            let mut combined = p.combined;
            merge_players(&mut combined, p.enriched);
            let pending = unresolved_puuids(&combined);
            let q = Progress {
                stage: CollectStage::Resolve,
                combined,
                identities: p.identities,
                index: 0,
                by_summoner: false,
                enriched: Vec::new(),
                pending,
            };
            assert(q@.enriched =~= Seq::<PlayerView>::empty());
            assert(q@ == enter_resolve(s));
            settle_resolve_progress(q)
        } else {
            let has_puuid = p.identities[p.index].puuid.is_some();
            let has_sid = p.identities[p.index].summoner_id.is_some();
            assert(s.identities[s.index] == identity_view(p.identities@[p.index as int]));
            if !p.by_summoner && has_puuid {
                p
            } else if has_sid {
                Progress { by_summoner: true, ..p }
            } else {
                let q = Progress { index: p.index + 1, by_summoner: false, ..p };
                assert(q@ == CollectorView { index: s.index + 1, by_summoner: false, ..s });
                settle_progress(q)
            }
        }
    } else if p.stage == CollectStage::Resolve {
        settle_resolve_progress(p)
    } else {
        p
    }
}

fn absorb(p: Progress, reply: Option<Json>) -> (r: Progress)
    requires
        settled(p@),
    ensures
        r@ == absorbed(p@, reply),
        bounded(r@),
{
    let ghost s = p@;
    match p.stage {
        CollectStage::RiotChat => match reply {
            Some(v) => {
                let mut combined = p.combined;
                merge_players(&mut combined, extract_champ_select_players(&v));
                Progress { stage: CollectStage::Members, combined, ..p }
            },
            None => Progress { stage: CollectStage::Chat, ..p },
        },
        CollectStage::Chat => {
            let mut combined = p.combined;
            match reply {
                Some(v) => merge_players(&mut combined, extract_champ_select_players(&v)),
                None => {},
            }
            Progress { stage: CollectStage::Members, combined, ..p }
        },
        CollectStage::Members => {
            let mut combined = p.combined;
            match reply {
                Some(v) => merge_players(&mut combined, extract_lobby_members_players(&v)),
                None => {},
            }
            Progress { stage: CollectStage::Session, combined, ..p }
        },
        CollectStage::Session => {
            let identities = match reply {
                Some(v) => champ_select_team_identities(&v),
                None => Vec::new(),
            };
            let r = Progress {
                stage: CollectStage::Identities,
                identities,
                index: 0,
                by_summoner: false,
                enriched: Vec::new(),
                ..p
            };
            assert(r@.enriched =~= Seq::<PlayerView>::empty());
            proof {
                if reply is None {
                    assert(r@.identities =~= Seq::<(Option<Seq<char>>, Option<u64>)>::empty());
                }
            }
            r
        },
        CollectStage::Identities => {
            let i = p.index;
            assert(s.identities.len() == p.identities@.len());
            assert(i < p.identities.len());
            assert(s.identities[s.index] == identity_view(p.identities@[i as int]));
            if !p.by_summoner {
                match reply {
                    Some(v) => {
                        let puuid = match &p.identities[i].puuid {
                            Some(u) => u.clone(),
                            None => String::new(),
                        };
                        let found = player_from_puuid_lookup(&v, puuid.as_str());
                        let mut enriched = p.enriched;
                        enriched.push(found);
                        let r = Progress { index: i + 1, by_summoner: false, enriched, ..p };
                        assert(r@.enriched =~= s.enriched.push(PlayerView { puuid: s.identities[s.index].0, ..summoner_player(v) }));
                        r
                    },
                    None => Progress { by_summoner: true, ..p },
                }
            } else {
                let mut enriched = p.enriched;
                match reply {
                    Some(v) => {
                        enriched.push(player_from_summoner_lookup(&v));
                        assert(players_view(enriched@) =~= s.enriched.push(summoner_player(v)));
                    },
                    None => {},
                }
                Progress { index: i + 1, by_summoner: false, enriched, ..p }
            }
        },
        CollectStage::Resolve => {
            let i = p.index;
            assert(s.pending.len() == p.pending@.len());
            assert(i < p.pending.len());
            let mut enriched = p.enriched;
            match reply {
                Some(v) => {
                    let found = player_from_puuid_lookup(&v, p.pending[i].as_str());
                    enriched.push(found);
                    assert(players_view(enriched@) =~= s.enriched.push(
                        PlayerView { puuid: Some(s.pending[s.index]), ..summoner_player(v) },
                    ));
                },
                None => {},
            }
            Progress { index: i + 1, enriched, ..p }
        },
        CollectStage::Done => p,
    }
}

impl PlayerCollector {
    #[verifier::type_invariant]
    spec fn ready(self) -> bool {
        settled(self.state@)
    }

    /// A collection before any answer.
    pub fn new(has_riot_client: bool) -> (r: PlayerCollector)
        ensures
            r@ == initial(has_riot_client),
    {
        let state = Progress {
            stage: if has_riot_client { CollectStage::RiotChat } else { CollectStage::Chat },
            combined: Vec::new(),
            identities: Vec::new(),
            index: 0,
            by_summoner: false,
            enriched: Vec::new(),
            pending: Vec::new(),
        };
        assert(state@.combined =~= Seq::<PlayerView>::empty());
        assert(state@.enriched =~= Seq::<PlayerView>::empty());
        assert(state@.identities =~= Seq::<(Option<Seq<char>>, Option<u64>)>::empty());
        assert(state@.pending =~= Seq::<Seq<char>>::empty());
        PlayerCollector { state }
    }

    /// The request to make next; none once the collection is over.
    pub fn request(&self) -> (r: Option<LcuRequest>)
        ensures
            opt_request(r) == request_of(self@),
    {
        proof {
            use_type_invariant(self);
        }
        let p = &self.state;
        match p.stage {
            CollectStage::RiotChat => Some(LcuRequest::RiotChatParticipants),
            CollectStage::Chat => Some(LcuRequest::ChatParticipants),
            CollectStage::Members => Some(LcuRequest::LobbyMembers),
            CollectStage::Session => Some(LcuRequest::ChampSelectSession),
            CollectStage::Identities => {
                let id = &p.identities[p.index];
                assert(self@.identities[self@.index] == identity_view(p.identities@[p.index as int]));
                if p.by_summoner {
                    match id.summoner_id {
                        Some(n) => Some(LcuRequest::PlayerBySummonerId(n)),
                        None => None,
                    }
                } else {
                    match &id.puuid {
                        Some(u) => Some(LcuRequest::PlayerByPuuid(u.clone())),
                        None => None,
                    }
                }
            },
            CollectStage::Resolve => Some(LcuRequest::PlayerByPuuid(p.pending[p.index].clone())),
            CollectStage::Done => None,
        }
    }

    /// Takes the answer to the request last asked for (`None` when it
    /// failed).
    pub fn advance(self, reply: Option<Json>) -> (r: PlayerCollector)
        ensures
            r@ == step(self@, reply),
    {
        proof {
            use_type_invariant(&self);
        }
        let p = absorb(self.state, reply);
        let q = settle_progress(p);
        PlayerCollector { state: q }
    }

    /// The players, once the collection is over: placeholders are dropped
    /// unless at most one player was found.
    pub fn players(self) -> (r: Option<Vec<LobbyPlayer>>)
        ensures
            r is Some <==> self@.stage == CollectStage::Done,
            r matches Some(v) ==> players_view(v@) == cleaned_players(self@.combined),
    {
        if self.state.stage == CollectStage::Done {
            Some(finish_players(self.state.combined))
        } else {
            None
        }
    }
}

} // verus!

//! The single shared session: phase, queue, draft and ready set.

use std::collections::HashMap;
use vstd::prelude::*;

use crate::maps::MapPool;
use crate::trusted::random_below;
use crate::util::{lemma_distinct_subset_len, lemma_filter_push, lemma_push_distinct, lemma_remove_distinct, position_of};
use crate::vote::{ballot_for, ballot_view, is_ballot_for, symbols_distinct, BallotEntry};

verus! {

broadcast use vstd::std_specs::hash::group_hash_axioms;

/// Number of players in a match, and the size of a full queue.
pub const QUEUE_CAPACITY: usize = 10;

/// Number of players on each team.
pub const TEAM_SIZE: usize = 5;

/// Stage of the match setup.
#[derive(Clone, Copy, Debug, PartialEq, Eq, Structural)]
pub enum Phase {
    Queue,
    MapPick,
    CaptainPick,
    Draft,
    SidePick,
    Ready,
}

/// Starting side of a team.
#[derive(Clone, Copy, Debug, PartialEq, Eq, Structural)]
pub enum Side {
    Ct,
    T,
}

/// Why a session operation was refused. A refused operation changes nothing.
#[derive(Clone, Copy, Debug, PartialEq, Eq, Structural)]
pub enum SessionError {
    /// The operation is not valid in the current phase.
    WrongPhase,
    /// The operation needs the admin capability.
    NotAdmin,
    /// The player has no external-game identity on record.
    NoIdentity,
    /// The queue already holds ten players.
    QueueFull,
    /// The player is already in the queue.
    AlreadyQueued,
    /// The player is not in the queue.
    NotQueued,
    /// Starting needs exactly ten queued players.
    QueueNotFull,
    /// The player already is the first captain.
    AlreadyCaptain,
    /// The acting player is not one of the two captains.
    NotCaptain,
    /// The acting captain is not the one whose turn it is.
    NotYourTurn,
    /// The target is already on a team.
    AlreadyPicked,
    /// Only the second captain chooses the starting side.
    NotSecondCaptain,
    /// The player is not ready.
    NotReady,
}

/// One of the two teams of the draft.
#[derive(Clone, Copy, Debug, PartialEq, Eq, Structural)]
pub enum Team {
    A,
    B,
}

/// What a successful captain registration did.
#[derive(Clone, Copy, Debug, PartialEq, Eq, Structural)]
pub enum CaptainOutcome {
    /// The player became the first captain; a second one is awaited.
    Registered,
    /// Both captains are set, the pick order is fixed and the draft began.
    DraftStarted,
}

/// What a successful pick did.
#[derive(Clone, Copy, Debug, PartialEq, Eq, Structural)]
pub enum PickOutcome {
    /// The player joined the given team and the other captain picks next.
    Picked(Team),
    /// The player joined the given team and both teams are now complete.
    DraftComplete(Team),
}

/// The completed draft, handed to the match launch.
pub struct Lineup {
    pub captain_a: u64,
    pub captain_b: u64,
    pub team_a: Vec<u64>,
    pub team_b: Vec<u64>,
    /// Starting side chosen for team B; team A starts on the other.
    pub team_b_side: Side,
}

/// What a successful `ready` did.
pub enum ReadyOutcome {
    /// The player was ready already; nothing changed.
    AlreadyReady,
    /// The player is now ready; the number of ready players is given.
    Readied(usize),
    /// The player was the last one: the match is to be launched with this
    /// lineup, and the session has been reset.
    Launch(Lineup),
}

/// A change to the queue membership: a join, with whether the player has an
/// identity on record, or a leave.
pub enum QueueOp {
    Join(u64, bool),
    Leave(u64),
}

/// Abstract state of the draft.
pub struct DraftView {
    pub captain_a: Option<u64>,
    pub captain_b: Option<u64>,
    pub team_a: Seq<u64>,
    pub team_b: Seq<u64>,
    pub picker: Option<u64>,
    pub side: Option<Side>,
}

impl DraftView {
    /// The draft before any captain has registered.
    pub open spec fn empty() -> DraftView {
        DraftView {
            captain_a: None,
            captain_b: None,
            team_a: Seq::empty(),
            team_b: Seq::empty(),
            picker: None,
            side: None,
        }
    }
}

/// Abstract state of the session.
pub struct SessionView {
    pub phase: Phase,
    pub queue: Seq<u64>,
    pub notes: Seq<Option<String>>,
    pub ready: Seq<u64>,
    pub draft: DraftView,
}

impl SessionView {
    /// The session at process start, and after every reset.
    pub open spec fn initial() -> SessionView {
        SessionView {
            phase: Phase::Queue,
            queue: Seq::empty(),
            notes: Seq::empty(),
            ready: Seq::empty(),
            draft: DraftView::empty(),
        }
    }

    /// The same session with draft and ready state dropped and the phase
    /// back at `Queue`; queue and notes are kept.
    pub open spec fn cancelled(self) -> SessionView {
        SessionView {
            phase: Phase::Queue,
            ready: Seq::empty(),
            draft: DraftView::empty(),
            ..self
        }
    }

    /// Both captains are set, distinct and queued, and the teams are disjoint
    /// queued rosters that each start with their captain.
    pub open spec fn rosters_wf(self) -> bool {
        let d = self.draft;
        &&& d.captain_a is Some
        &&& d.captain_b is Some
        &&& d.captain_a != d.captain_b
        &&& d.team_a.len() >= 1
        &&& d.team_b.len() >= 1
        &&& d.team_a.len() <= TEAM_SIZE
        &&& d.team_b.len() <= TEAM_SIZE
        &&& d.team_a[0] == d.captain_a->0
        &&& d.team_b[0] == d.captain_b->0
        &&& d.team_a.no_duplicates()
        &&& d.team_b.no_duplicates()
        &&& forall|x: u64| d.team_a.contains(x) ==> !d.team_b.contains(x)
        &&& forall|x: u64| d.team_a.contains(x) ==> self.queue.contains(x)
        &&& forall|x: u64| d.team_b.contains(x) ==> self.queue.contains(x)
    }

    /// What each phase says of the draft.
    pub open spec fn draft_wf(self) -> bool {
        let d = self.draft;
        match self.phase {
            Phase::Queue | Phase::MapPick => d == DraftView::empty(),
            Phase::CaptainPick => {
                &&& d.captain_b is None
                &&& d.team_a.len() == 0
                &&& d.team_b.len() == 0
                &&& d.picker is None
                &&& d.side is None
                &&& (d.captain_a matches Some(a) ==> self.queue.contains(a))
            },
            Phase::Draft => {
                &&& self.rosters_wf()
                &&& d.side is None
                &&& !(d.team_a.len() == TEAM_SIZE && d.team_b.len() == TEAM_SIZE)
                &&& if d.team_a.len() == d.team_b.len() {
                    d.picker == d.captain_a
                } else {
                    d.team_a.len() == d.team_b.len() + 1 && d.picker == d.captain_b
                }
            },
            Phase::SidePick => {
                &&& self.rosters_wf()
                &&& d.team_a.len() == TEAM_SIZE
                &&& d.team_b.len() == TEAM_SIZE
                &&& d.picker == d.captain_a
                &&& d.side is None
            },
            Phase::Ready => {
                &&& self.rosters_wf()
                &&& d.team_a.len() == TEAM_SIZE
                &&& d.team_b.len() == TEAM_SIZE
                &&& d.picker == d.captain_a
                &&& d.side is Some
            },
        }
    }

    /// What `join` answers.
    pub open spec fn join_outcome(self, player: u64, has_identity: bool) -> Result<
        usize,
        SessionError,
    > {
        if !has_identity {
            Err(SessionError::NoIdentity)
        } else if self.queue.len() >= QUEUE_CAPACITY {
            Err(SessionError::QueueFull)
        } else if self.queue.contains(player) {
            Err(SessionError::AlreadyQueued)
        } else {
            Ok((self.queue.len() + 1) as usize)
        }
    }

    /// The session after `join`: the player and note appended when it
    /// succeeds, nothing changed otherwise.
    pub open spec fn after_join(self, player: u64, note: Option<String>, has_identity: bool) -> SessionView {
        if self.join_outcome(player, has_identity) is Ok {
            SessionView { queue: self.queue.push(player), notes: self.notes.push(note), ..self }
        } else {
            self
        }
    }

    /// The session in phase `Ready` with `side` as the second team's
    /// starting side.
    pub open spec fn with_side(self, side: Side) -> SessionView {
        SessionView {
            phase: Phase::Ready,
            draft: DraftView { side: Some(side), ..self.draft },
            ..self
        }
    }

    /// The same session in another phase.
    pub open spec fn with_phase(self, phase: Phase) -> SessionView {
        SessionView { phase, ..self }
    }

    /// The session after `players` joined one after the other, without notes.
    pub open spec fn after_joins(self, players: Seq<u64>, identities: Map<u64, String>) -> SessionView
        decreases players.len(),
    {
        if players.len() == 0 {
            self
        } else {
            let p = players.last();
            self.after_joins(players.drop_last(), identities).after_join(
                p,
                None,
                identities.contains_key(p),
            )
        }
    }

    /// What registering `player` as a captain answers.
    pub open spec fn captain_outcome(self, player: u64) -> Result<CaptainOutcome, SessionError> {
        if self.phase != Phase::CaptainPick {
            Err(SessionError::WrongPhase)
        } else if !self.queue.contains(player) {
            Err(SessionError::NotQueued)
        } else if self.draft.captain_a == Some(player) {
            Err(SessionError::AlreadyCaptain)
        } else if self.draft.captain_a is None {
            Ok(CaptainOutcome::Registered)
        } else {
            Ok(CaptainOutcome::DraftStarted)
        }
    }

    /// The draft when `first` picks first and `second` second: each captain
    /// seated on their own team, `first` to pick.
    pub open spec fn seeded(first: u64, second: u64) -> DraftView {
        DraftView {
            captain_a: Some(first),
            captain_b: Some(second),
            team_a: seq![first],
            team_b: seq![second],
            picker: Some(first),
            side: None,
        }
    }

    /// The session after registering `player` as a captain. When the second
    /// captain registers, `swap` is the coin: if set, the second captain
    /// becomes captain A and picks first.
    pub open spec fn after_captain(self, player: u64, swap: bool) -> SessionView {
        match self.captain_outcome(player) {
            Ok(CaptainOutcome::Registered) => SessionView {
                draft: DraftView { captain_a: Some(player), ..self.draft },
                ..self
            },
            Ok(CaptainOutcome::DraftStarted) => {
                let first = self.draft.captain_a->0;
                SessionView {
                    phase: Phase::Draft,
                    draft: if swap {
                        SessionView::seeded(player, first)
                    } else {
                        SessionView::seeded(first, player)
                    },
                    ..self
                }
            },
            Err(_) => self,
        }
    }

    /// Why `actor` may not pick `target` now, if they may not.
    pub open spec fn pick_error(self, actor: u64, target: u64) -> Option<SessionError> {
        let d = self.draft;
        if self.phase != Phase::Draft {
            Some(SessionError::WrongPhase)
        } else if !self.queue.contains(target) {
            Some(SessionError::NotQueued)
        } else if d.captain_a != Some(actor) && d.captain_b != Some(actor) {
            Some(SessionError::NotCaptain)
        } else if d.picker != Some(actor) {
            Some(SessionError::NotYourTurn)
        } else if d.team_a.contains(target) || d.team_b.contains(target) {
            Some(SessionError::AlreadyPicked)
        } else {
            None
        }
    }

    /// The team of the captain `actor`.
    pub open spec fn team_of_captain(self, actor: u64) -> Team {
        if self.draft.captain_a == Some(actor) {
            Team::A
        } else {
            Team::B
        }
    }

    /// The draft after `actor` picked `target`: the target joins the actor's
    /// team, the turn passes to the other captain, and with both teams full
    /// the side choice comes next.
    pub open spec fn after_pick(self, actor: u64, target: u64) -> SessionView {
        let d = self.draft;
        let nd = if self.team_of_captain(actor) == Team::A {
            DraftView { team_a: d.team_a.push(target), picker: d.captain_b, ..d }
        } else {
            DraftView { team_b: d.team_b.push(target), picker: d.captain_a, ..d }
        };
        SessionView {
            phase: if nd.team_a.len() == TEAM_SIZE && nd.team_b.len() == TEAM_SIZE {
                Phase::SidePick
            } else {
                Phase::Draft
            },
            draft: nd,
            ..self
        }
    }

    /// What `ready` answers, leaving the lineup of a launch aside.
    pub open spec fn ready_error(self, player: u64) -> Option<SessionError> {
        if self.phase != Phase::Ready {
            Some(SessionError::WrongPhase)
        } else if !self.queue.contains(player) {
            Some(SessionError::NotQueued)
        } else {
            None
        }
    }

    /// `player` is the last of the queue to become ready.
    pub open spec fn completes_ready_check(self, player: u64) -> bool {
        &&& self.ready_error(player) is None
        &&& !self.ready.contains(player)
        &&& self.ready.len() + 1 == QUEUE_CAPACITY
    }

    /// The queued players that are not ready, in queue order.
    pub open spec fn not_ready(self) -> Seq<u64> {
        self.queue.filter(|p: u64| !self.ready.contains(p))
    }

    /// The queued players on neither team, in queue order.
    pub open spec fn unpicked(self) -> Seq<u64> {
        self.queue.filter(|p: u64| !self.draft.team_a.contains(p) && !self.draft.team_b.contains(p))
    }

    /// The session after `player` left: removed with their note when the
    /// phase is `Queue` and they are queued, nothing changed otherwise.
    pub open spec fn after_leave(self, player: u64) -> SessionView {
        if self.phase == Phase::Queue && self.queue.contains(player) {
            let i = self.queue.index_of(player);
            SessionView { queue: self.queue.remove(i), notes: self.notes.remove(i), ..self }
        } else {
            self
        }
    }

    /// The session after a sequence of joins and leaves.
    pub open spec fn after_queue_ops(self, ops: Seq<QueueOp>) -> SessionView
        decreases ops.len(),
    {
        if ops.len() == 0 {
            self
        } else {
            let prev = self.after_queue_ops(ops.drop_last());
            match ops.last() {
                QueueOp::Join(p, has_identity) => prev.after_join(p, None, has_identity),
                QueueOp::Leave(p) => prev.after_leave(p),
            }
        }
    }

    /// The session invariant.
    pub open spec fn wf(self) -> bool {
        &&& self.queue.len() <= QUEUE_CAPACITY
        &&& self.queue.no_duplicates()
        &&& self.notes.len() == self.queue.len()
        &&& self.ready.no_duplicates()
        &&& forall|x: u64| self.ready.contains(x) ==> self.queue.contains(x)
        &&& self.phase != Phase::Ready ==> self.ready.len() == 0
        &&& self.phase != Phase::Queue ==> self.queue.len() == QUEUE_CAPACITY
        &&& self.draft_wf()
    }
}

struct Draft {
    captain_a: Option<u64>,
    captain_b: Option<u64>,
    team_a: Vec<u64>,
    team_b: Vec<u64>,
    picker: Option<u64>,
    side: Option<Side>,
}

impl View for Draft {
    type V = DraftView;

    closed spec fn view(&self) -> DraftView {
        DraftView {
            captain_a: self.captain_a,
            captain_b: self.captain_b,
            team_a: self.team_a@,
            team_b: self.team_b@,
            picker: self.picker,
            side: self.side,
        }
    }
}

impl Draft {
    fn empty() -> (d: Draft)
        ensures
            d@ == DraftView::empty(),
    {
        let d = Draft {
            captain_a: None,
            captain_b: None,
            team_a: Vec::new(),
            team_b: Vec::new(),
            picker: None,
            side: None,
        };
        assert(d@.team_a =~= Seq::empty());
        assert(d@.team_b =~= Seq::empty());
        d
    }
}

/// The shared state of match setup.
pub struct Session {
    phase: Phase,
    queue: Vec<u64>,
    notes: Vec<Option<String>>,
    ready: Vec<u64>,
    draft: Draft,
}

impl View for Session {
    type V = SessionView;

    closed spec fn view(&self) -> SessionView {
        SessionView {
            phase: self.phase,
            queue: self.queue@,
            notes: self.notes@,
            ready: self.ready@,
            draft: self.draft@,
        }
    }
}

impl Session {
    pub open spec fn wf(&self) -> bool {
        self@.wf()
    }

    /// A fresh session: empty queue, phase `Queue`.
    pub fn new() -> (s: Session)
        ensures
            s.wf(),
            s@ == SessionView::initial(),
    {
        let s = Session {
            phase: Phase::Queue,
            queue: Vec::new(),
            notes: Vec::new(),
            ready: Vec::new(),
            draft: Draft::empty(),
        };
        assert(s@.queue =~= Seq::empty());
        assert(s@.notes =~= Seq::empty());
        assert(s@.ready =~= Seq::empty());
        s
    }

    pub fn phase(&self) -> (r: Phase)
        ensures
            r == self@.phase,
    {
        self.phase
    }

    /// The queued players, in order of joining.
    pub fn queue(&self) -> (r: &Vec<u64>)
        ensures
            r@ == self@.queue,
    {
        &self.queue
    }

    /// The note of each queued player, parallel to [`Session::queue`].
    pub fn notes(&self) -> (r: &Vec<Option<String>>)
        ensures
            r@ == self@.notes,
    {
        &self.notes
    }

    /// The players that are ready, in order.
    pub fn ready_players(&self) -> (r: &Vec<u64>)
        ensures
            r@ == self@.ready,
    {
        &self.ready
    }

    pub fn captain_a(&self) -> (r: Option<u64>)
        ensures
            r == self@.draft.captain_a,
    {
        self.draft.captain_a
    }

    pub fn captain_b(&self) -> (r: Option<u64>)
        ensures
            r == self@.draft.captain_b,
    {
        self.draft.captain_b
    }

    /// The captain whose turn it is to pick.
    pub fn current_picker(&self) -> (r: Option<u64>)
        ensures
            r == self@.draft.picker,
    {
        self.draft.picker
    }

    pub fn team_a(&self) -> (r: &Vec<u64>)
        ensures
            r@ == self@.draft.team_a,
    {
        &self.draft.team_a
    }

    pub fn team_b(&self) -> (r: &Vec<u64>)
        ensures
            r@ == self@.draft.team_b,
    {
        &self.draft.team_b
    }

    /// The starting side chosen by the second captain.
    pub fn team_b_start_side(&self) -> (r: Option<Side>)
        ensures
            r == self@.draft.side,
    {
        self.draft.side
    }

    /// Adds `player` to the queue with an optional note. A player needs an
    /// identity on record, a free place and not to be queued already.
    pub fn join(&mut self, player: u64, note: Option<String>, identities: &HashMap<u64, String>) -> (r:
        Result<usize, SessionError>)
        requires
            old(self).wf(),
        ensures
            final(self).wf(),
            r == old(self)@.join_outcome(player, identities@.contains_key(player)),
            final(self)@ == old(self)@.after_join(player, note, identities@.contains_key(player)),
    {
        if !identities.contains_key(&player) {
            return Err(SessionError::NoIdentity);
        }
        if self.queue.len() >= QUEUE_CAPACITY {
            return Err(SessionError::QueueFull);
        }
        if position_of(&self.queue, player).is_some() {
            return Err(SessionError::AlreadyQueued);
        }
        proof {
            lemma_push_distinct(self.queue@, player);
        }
        self.queue.push(player);
        self.notes.push(note);
        Ok(self.queue.len())
    }

    /// Removes `player` and their note from the queue; only in phase `Queue`.
    pub fn leave(&mut self, player: u64) -> (r: Result<usize, SessionError>)
        requires
            old(self).wf(),
        ensures
            final(self).wf(),
            old(self)@.phase != Phase::Queue ==> r == Err::<usize, SessionError>(
                SessionError::WrongPhase),
            old(self)@.phase == Phase::Queue && !old(self)@.queue.contains(player) ==> r == Err::<
                usize,
                SessionError,
            >(SessionError::NotQueued),
            old(self)@.phase == Phase::Queue && old(self)@.queue.contains(player) ==> r == Ok::<
                usize,
                SessionError,
            >((old(self)@.queue.len() - 1) as usize) && !final(self)@.queue.contains(player),
            final(self)@ == old(self)@.after_leave(player),
    {
        if self.phase != Phase::Queue {
            return Err(SessionError::WrongPhase);
        }
        match position_of(&self.queue, player) {
            None => Err(SessionError::NotQueued),
            Some(i) => {
                proof {
                    lemma_remove_distinct(self.queue@, i as int);
                    self.queue@.index_of_first_ensures(player);
                    assert(self.queue@.index_of(player) == i) by {
                        if self.queue@.index_of(player) != i as int {
                            assert(self.queue@.no_duplicates());
                        }
                    }
                }
                self.queue.remove(i);
                self.notes.remove(i);
                Ok(self.queue.len())
            },
        }
    }

    /// Removes `player` from the queue on an admin's behalf; only in phase
    /// `Queue`.
    pub fn kick(&mut self, is_admin: bool, player: u64) -> (r: Result<usize, SessionError>)
        requires
            old(self).wf(),
        ensures
            final(self).wf(),
            !is_admin ==> r == Err::<usize, SessionError>(SessionError::NotAdmin),
            old(self)@.phase != Phase::Queue && is_admin ==> r == Err::<usize, SessionError>(
                SessionError::WrongPhase),
            old(self)@.phase == Phase::Queue && is_admin && !old(self)@.queue.contains(player)
                ==> r == Err::<usize, SessionError>(SessionError::NotQueued),
            old(self)@.phase == Phase::Queue && is_admin && old(self)@.queue.contains(player)
                ==> r == Ok::<usize, SessionError>((old(self)@.queue.len() - 1) as usize)
                && !final(self)@.queue.contains(player),
            !is_admin ==> final(self)@ == old(self)@,
            is_admin ==> final(self)@ == old(self)@.after_leave(player),
    {
        if !is_admin {
            return Err(SessionError::NotAdmin);
        }
        self.leave(player)
    }

    /// Wipes the whole session on an admin's behalf: queue, notes, draft and
    /// ready state; the phase goes back to `Queue`.
    pub fn clear(&mut self, is_admin: bool) -> (r: Result<(), SessionError>)
        requires
            old(self).wf(),
        ensures
            final(self).wf(),
            !is_admin ==> r == Err::<(), SessionError>(SessionError::NotAdmin) && final(self)@
                == old(self)@,
            is_admin ==> r is Ok && final(self)@ == SessionView::initial(),
    {
        if !is_admin {
            return Err(SessionError::NotAdmin);
        }
        self.reset();
        Ok(())
    }

    fn reset(&mut self)
        ensures
            final(self)@ == SessionView::initial(),
            final(self).wf(),
    {
        self.queue.clear();
        self.notes.clear();
        self.ready.clear();
        self.draft = Draft::empty();
        self.phase = Phase::Queue;
        assert(self@.queue =~= Seq::empty());
        assert(self@.notes =~= Seq::empty());
        assert(self@.ready =~= Seq::empty());
    }

    /// On an admin's behalf, wipes the session and has each of `players`
    /// join in turn; the answer of each join is returned in order.
    pub fn recover(
        &mut self,
        is_admin: bool,
        players: &Vec<u64>,
        identities: &HashMap<u64, String>,
    ) -> (r: Result<Vec<Result<usize, SessionError>>, SessionError>)
        requires
            old(self).wf(),
        ensures
            final(self).wf(),
            !is_admin ==> r == Err::<Vec<Result<usize, SessionError>>, SessionError>(
                SessionError::NotAdmin) && final(self)@ == old(self)@,
            is_admin ==> r is Ok && final(self)@ == SessionView::initial().after_joins(
                players@,
                identities@,
            ),
            r matches Ok(answers) ==> answers@.len() == players@.len() && forall|i: int|
                0 <= i < players@.len() ==> #[trigger] answers@[i]
                    == SessionView::initial().after_joins(players@.take(i), identities@).join_outcome(
                    players@[i],
                    identities@.contains_key(players@[i]),
                ),
    {
        if !is_admin {
            return Err(SessionError::NotAdmin);
        }
        self.reset();
        let mut answers: Vec<Result<usize, SessionError>> = Vec::new();
        let mut i: usize = 0;
        while i < players.len()
            invariant
                self.wf(),
                i <= players@.len(),
                self@ == SessionView::initial().after_joins(players@.take(i as int), identities@),
                answers@.len() == i,
                forall|k: int|
                    0 <= k < i ==> #[trigger] answers@[k] == SessionView::initial().after_joins(
                        players@.take(k),
                        identities@,
                    ).join_outcome(players@[k], identities@.contains_key(players@[k])),
            decreases players@.len() - i,
        {
            assert(players@.take(i + 1).drop_last() =~= players@.take(i as int));
            assert(players@.take(i + 1).last() == players@[i as int]);
            let answer = self.join(players[i], None, identities);
            answers.push(answer);
            i = i + 1;
        }
        assert(players@.take(players@.len() as int) =~= players@);
        Ok(answers)
    }

    /// Starts match setup on an admin's behalf: with exactly ten players
    /// queued the phase goes from `Queue` to `MapPick`, and the ballot for
    /// `pool` is returned.
    pub fn start(&mut self, is_admin: bool, pool: &MapPool) -> (r: Result<
        Vec<BallotEntry>,
        SessionError,
    >)
        requires
            old(self).wf(),
            pool.wf(),
        ensures
            final(self).wf(),
            !is_admin ==> r == Err::<Vec<BallotEntry>, SessionError>(SessionError::NotAdmin),
            is_admin && old(self)@.phase != Phase::Queue ==> r == Err::<
                Vec<BallotEntry>,
                SessionError,
            >(SessionError::WrongPhase),
            is_admin && old(self)@.phase == Phase::Queue && old(self)@.queue.len()
                != QUEUE_CAPACITY ==> r == Err::<Vec<BallotEntry>, SessionError>(
                SessionError::QueueNotFull),
            r is Err ==> final(self)@ == old(self)@,
            is_admin && old(self)@.phase == Phase::Queue && old(self)@.queue.len()
                == QUEUE_CAPACITY ==> r is Ok && final(self)@ == old(self)@.with_phase(Phase::MapPick),
            r matches Ok(b) ==> is_ballot_for(ballot_view(b@), pool@) && symbols_distinct(
                ballot_view(b@),
            ),
    {
        if !is_admin {
            return Err(SessionError::NotAdmin);
        }
        if self.phase != Phase::Queue {
            return Err(SessionError::WrongPhase);
        }
        if self.queue.len() != QUEUE_CAPACITY {
            return Err(SessionError::QueueNotFull);
        }
        self.phase = Phase::MapPick;
        Ok(ballot_for(pool))
    }

    /// Ends the map vote: once the server has taken the chosen map the
    /// captains are registered next; if it has not, setup is abandoned and
    /// the phase returns to `Queue`. The new phase is returned.
    pub fn finish_map_vote(&mut self, map_applied: bool) -> (r: Result<Phase, SessionError>)
        requires
            old(self).wf(),
        ensures
            final(self).wf(),
            old(self)@.phase != Phase::MapPick ==> r == Err::<Phase, SessionError>(
                SessionError::WrongPhase) && final(self)@ == old(self)@,
            old(self)@.phase == Phase::MapPick && map_applied ==> r == Ok::<Phase, SessionError>(
                Phase::CaptainPick) && final(self)@ == old(self)@.with_phase(Phase::CaptainPick),
            old(self)@.phase == Phase::MapPick && !map_applied ==> r == Ok::<Phase, SessionError>(
                Phase::Queue) && final(self)@ == old(self)@.cancelled(),
    {
        if self.phase != Phase::MapPick {
            return Err(SessionError::WrongPhase);
        }
        if map_applied {
            self.phase = Phase::CaptainPick;
        } else {
            self.phase = Phase::Queue;
            assert(self@.ready =~= Seq::empty());
        }
        Ok(self.phase)
    }

    /// Registers `player` as a captain. The first registration sets captain
    /// A. The second sets captain B and starts the draft; `swap` is the coin
    /// that decides the pick order: if set, the two captains trade places.
    pub fn register_captain(&mut self, player: u64, swap: bool) -> (r: Result<
        CaptainOutcome,
        SessionError,
    >)
        requires
            old(self).wf(),
        ensures
            final(self).wf(),
            r == old(self)@.captain_outcome(player),
            final(self)@ == old(self)@.after_captain(player, swap),
    {
        if self.phase != Phase::CaptainPick {
            return Err(SessionError::WrongPhase);
        }
        if position_of(&self.queue, player).is_none() {
            return Err(SessionError::NotQueued);
        }
        match self.draft.captain_a {
            None => {
                self.draft.captain_a = Some(player);
                Ok(CaptainOutcome::Registered)
            },
            Some(a) => {
                if a == player {
                    return Err(SessionError::AlreadyCaptain);
                }
                let (first, second) = if swap {
                    (player, a)
                } else {
                    (a, player)
                };
                self.draft.captain_a = Some(first);
                self.draft.captain_b = Some(second);
                self.draft.team_a = vec![first];
                self.draft.team_b = vec![second];
                self.draft.picker = Some(first);
                self.phase = Phase::Draft;
                proof {
                    let d = self@.draft;
                    assert(d.team_a =~= seq![first]);
                    assert(d.team_b =~= seq![second]);
                    assert(d == SessionView::seeded(first, second));
                    assert forall|x: u64| d.team_a.contains(x) implies !d.team_b.contains(x)
                        && self@.queue.contains(x) by {
                        assert(d.team_a.contains(x) ==> x == first);
                    }
                    assert forall|x: u64| d.team_b.contains(x) implies self@.queue.contains(x) by {
                        assert(d.team_b.contains(x) ==> x == second);
                    }
                }
                Ok(CaptainOutcome::DraftStarted)
            },
        }
    }

    /// Registers `player` as a captain, flipping a fair coin for the pick
    /// order when the second captain registers.
    pub fn captain(&mut self, player: u64) -> (r: Result<CaptainOutcome, SessionError>)
        requires
            old(self).wf(),
        ensures
            final(self).wf(),
            r == old(self)@.captain_outcome(player),
            final(self)@ == old(self)@.after_captain(player, false) || final(self)@ == old(self)@.after_captain(player, true),
    {
        let swap = random_below(2) != 0;
        self.register_captain(player, swap)
    }

    /// `actor` picks `target` for their team.
    pub fn pick(&mut self, actor: u64, target: u64) -> (r: Result<PickOutcome, SessionError>)
        requires
            old(self).wf(),
        ensures
            final(self).wf(),
            old(self)@.pick_error(actor, target) matches Some(e) ==> r == Err::<
                PickOutcome,
                SessionError,
            >(e) && final(self)@ == old(self)@,
            old(self)@.pick_error(actor, target) is None ==> final(self)@ == old(self)@.after_pick(
                actor,
                target,
            ) && r == Ok::<PickOutcome, SessionError>(
                if final(self)@.phase == Phase::SidePick {
                    PickOutcome::DraftComplete(old(self)@.team_of_captain(actor))
                } else {
                    PickOutcome::Picked(old(self)@.team_of_captain(actor))
                },
            ),
    {
        if self.phase != Phase::Draft {
            return Err(SessionError::WrongPhase);
        }
        if position_of(&self.queue, target).is_none() {
            return Err(SessionError::NotQueued);
        }
        if self.draft.captain_a != Some(actor) && self.draft.captain_b != Some(actor) {
            return Err(SessionError::NotCaptain);
        }
        if self.draft.picker != Some(actor) {
            return Err(SessionError::NotYourTurn);
        }
        if position_of(&self.draft.team_a, target).is_some() || position_of(
            &self.draft.team_b,
            target,
        ).is_some() {
            return Err(SessionError::AlreadyPicked);
        }
        let ghost old_view = self@;
        let team = if self.draft.captain_a == Some(actor) {
            proof {
                lemma_push_distinct(self.draft.team_a@, target);
            }
            self.draft.team_a.push(target);
            self.draft.picker = self.draft.captain_b;
            Team::A
        } else {
            proof {
                lemma_push_distinct(self.draft.team_b@, target);
            }
            self.draft.team_b.push(target);
            self.draft.picker = self.draft.captain_a;
            Team::B
        };
        let complete = self.draft.team_a.len() == TEAM_SIZE && self.draft.team_b.len() == TEAM_SIZE;
        if complete {
            self.phase = Phase::SidePick;
        }
        proof {
            assert(self@ == old_view.after_pick(actor, target));
            let d = self@.draft;
            let od = old_view.draft;
            assert(d.team_a[0] == od.team_a[0]);
            assert(d.team_b[0] == od.team_b[0]);
            assert forall|x: u64| d.team_a.contains(x) implies !d.team_b.contains(x)
                && self@.queue.contains(x) by {
                if x != target {
                    assert(od.team_a.contains(x));
                }
            }
            assert forall|x: u64| d.team_b.contains(x) implies self@.queue.contains(x) by {
                if x != target {
                    assert(od.team_b.contains(x));
                }
            }
        }
        if complete {
            Ok(PickOutcome::DraftComplete(team))
        } else {
            Ok(PickOutcome::Picked(team))
        }
    }

    /// The second captain chooses the starting side of their team; the ready
    /// check follows.
    pub fn choose_side(&mut self, actor: u64, side: Side) -> (r: Result<(), SessionError>)
        requires
            old(self).wf(),
        ensures
            final(self).wf(),
            old(self)@.phase != Phase::SidePick ==> r == Err::<(), SessionError>(
                SessionError::WrongPhase),
            old(self)@.phase == Phase::SidePick && old(self)@.draft.captain_b != Some(actor) ==> r
                == Err::<(), SessionError>(SessionError::NotSecondCaptain),
            r is Err ==> final(self)@ == old(self)@,
            old(self)@.phase == Phase::SidePick && old(self)@.draft.captain_b == Some(actor) ==> r
                is Ok && final(self)@ == old(self)@.with_side(side),
    {
        if self.phase != Phase::SidePick {
            return Err(SessionError::WrongPhase);
        }
        if self.draft.captain_b != Some(actor) {
            return Err(SessionError::NotSecondCaptain);
        }
        self.draft.side = Some(side);
        self.phase = Phase::Ready;
        Ok(())
    }

    /// Marks `player` ready. The player who completes the ready check gets the
    /// lineup to launch, and the session is reset at once, whatever the launch
    /// then does.
    pub fn ready(&mut self, player: u64) -> (r: Result<ReadyOutcome, SessionError>)
        requires
            old(self).wf(),
        ensures
            final(self).wf(),
            old(self)@.ready_error(player) matches Some(e) ==> (r matches Err(x) && x == e)
                && final(self)@ == old(self)@,
            old(self)@.ready_error(player) is None && old(self)@.ready.contains(player) ==> (
            r matches Ok(ReadyOutcome::AlreadyReady)) && final(self)@ == old(self)@,
            old(self)@.ready_error(player) is None && !old(self)@.ready.contains(player)
                && !old(self)@.completes_ready_check(player) ==> (r matches Ok(
                ReadyOutcome::Readied(n),
            ) && n == old(self)@.ready.len() + 1) && final(self)@ == (SessionView {
                ready: old(self)@.ready.push(player),
                ..old(self)@
            }),
            (r matches Ok(ReadyOutcome::Launch(_))) <==> old(self)@.completes_ready_check(player),
            r matches Ok(ReadyOutcome::Launch(l)) ==> final(self)@ == SessionView::initial() && l.view()
                == old(self)@.draft,
    {
        if self.phase != Phase::Ready {
            return Err(SessionError::WrongPhase);
        }
        if position_of(&self.queue, player).is_none() {
            return Err(SessionError::NotQueued);
        }
        if position_of(&self.ready, player).is_some() {
            return Ok(ReadyOutcome::AlreadyReady);
        }
        proof {
            lemma_push_distinct(self.ready@, player);
        }
        self.ready.push(player);
        proof {
            lemma_distinct_subset_len(self@.ready, self@.queue);
        }
        if self.ready.len() < QUEUE_CAPACITY {
            return Ok(ReadyOutcome::Readied(self.ready.len()));
        }
        let ghost d = self@.draft;
        let mut taken = Draft::empty();
        core::mem::swap(&mut taken, &mut self.draft);
        let lineup = Lineup {
            captain_a: taken.captain_a.unwrap(),
            captain_b: taken.captain_b.unwrap(),
            team_a: taken.team_a,
            team_b: taken.team_b,
            team_b_side: taken.side.unwrap(),
        };
        self.reset();
        assert(lineup.view() == d);
        Ok(ReadyOutcome::Launch(lineup))
    }

    /// Withdraws the ready mark of `player`.
    pub fn unready(&mut self, player: u64) -> (r: Result<usize, SessionError>)
        requires
            old(self).wf(),
        ensures
            final(self).wf(),
            old(self)@.ready_error(player) matches Some(e) ==> r == Err::<usize, SessionError>(e),
            old(self)@.ready_error(player) is None && !old(self)@.ready.contains(player) ==> r
                == Err::<usize, SessionError>(SessionError::NotReady),
            r is Err ==> final(self)@ == old(self)@,
            old(self)@.ready_error(player) is None && old(self)@.ready.contains(player) ==> r
                == Ok::<usize, SessionError>((old(self)@.ready.len() - 1) as usize) && final(self)@ == (SessionView {
                ready: old(self)@.ready.remove(old(self)@.ready.index_of(player)),
                ..old(self)@
            }),
    {
        if self.phase != Phase::Ready {
            return Err(SessionError::WrongPhase);
        }
        if position_of(&self.queue, player).is_none() {
            return Err(SessionError::NotQueued);
        }
        match position_of(&self.ready, player) {
            None => Err(SessionError::NotReady),
            Some(i) => {
                proof {
                    lemma_remove_distinct(self.ready@, i as int);
                    self.ready@.index_of_first_ensures(player);
                    if self.ready@.index_of(player) != i as int {
                        assert(self.ready@.no_duplicates());
                    }
                }
                self.ready.remove(i);
                Ok(self.ready.len())
            },
        }
    }

    /// Abandons match setup on an admin's behalf: draft and ready state are
    /// dropped and the phase returns to `Queue`; the queue stays as it is.
    pub fn cancel(&mut self, is_admin: bool) -> (r: Result<(), SessionError>)
        requires
            old(self).wf(),
        ensures
            final(self).wf(),
            !is_admin ==> r == Err::<(), SessionError>(SessionError::NotAdmin),
            is_admin && old(self)@.phase == Phase::Queue ==> r == Err::<(), SessionError>(
                SessionError::WrongPhase),
            r is Err ==> final(self)@ == old(self)@,
            is_admin && old(self)@.phase != Phase::Queue ==> r is Ok && final(self)@ == old(self)@.cancelled(),
    {
        if !is_admin {
            return Err(SessionError::NotAdmin);
        }
        if self.phase == Phase::Queue {
            return Err(SessionError::WrongPhase);
        }
        self.ready.clear();
        self.draft = Draft::empty();
        self.phase = Phase::Queue;
        assert(self@.ready =~= Seq::empty());
        Ok(())
    }

    /// The queued players that are not ready, in queue order.
    pub fn unready_players(&self) -> (r: Vec<u64>)
        ensures
            r@ == self@.not_ready(),
    {
        let ghost pred = |p: u64| !self@.ready.contains(p);
        let mut r: Vec<u64> = Vec::new();
        let mut i: usize = 0;
        while i < self.queue.len()
            invariant
                i <= self@.queue.len(),
                pred == (|p: u64| !self@.ready.contains(p)),
                r@ == self@.queue.take(i as int).filter(pred),
            decreases self@.queue.len() - i,
        {
            let p = self.queue[i];
            proof {
                assert(self@.queue.take(i + 1) =~= self@.queue.take(i as int).push(p));
                lemma_filter_push(self@.queue.take(i as int), p, pred);
            }
            if position_of(&self.ready, p).is_none() {
                r.push(p);
            }
            i = i + 1;
        }
        assert(self@.queue.take(self@.queue.len() as int) =~= self@.queue);
        r
    }

    /// The queued players on neither team, in queue order.
    pub fn unpicked_players(&self) -> (r: Vec<u64>)
        ensures
            r@ == self@.unpicked(),
    {
        let ghost pred = |p: u64| !self@.draft.team_a.contains(p) && !self@.draft.team_b.contains(p);
        let mut r: Vec<u64> = Vec::new();
        let mut i: usize = 0;
        while i < self.queue.len()
            invariant
                i <= self@.queue.len(),
                pred == (|p: u64| !self@.draft.team_a.contains(p) && !self@.draft.team_b.contains(p)),
                r@ == self@.queue.take(i as int).filter(pred),
            decreases self@.queue.len() - i,
        {
            let p = self.queue[i];
            proof {
                assert(self@.queue.take(i + 1) =~= self@.queue.take(i as int).push(p));
                lemma_filter_push(self@.queue.take(i as int), p, pred);
            }
            if position_of(&self.draft.team_a, p).is_none() && position_of(&self.draft.team_b, p).is_none() {
                r.push(p);
            }
            i = i + 1;
        }
        assert(self@.queue.take(self@.queue.len() as int) =~= self@.queue);
        r
    }
}

impl Lineup {
    /// The draft that this lineup records.
    pub open spec fn view(&self) -> DraftView {
        DraftView {
            captain_a: Some(self.captain_a),
            captain_b: Some(self.captain_b),
            team_a: self.team_a@,
            team_b: self.team_b@,
            picker: Some(self.captain_a),
            side: Some(self.team_b_side),
        }
    }
}

/// However players join, the queue holds at most ten players, none twice;
/// a join on a full queue fails and changes nothing.
pub proof fn lemma_join_keeps_queue_bounded(
    v: SessionView,
    player: u64,
    note: Option<String>,
    has_identity: bool,
)
    requires
        v.wf(),
    ensures
        v.after_join(player, note, has_identity).wf(),
        v.after_join(player, note, has_identity).queue.len() <= QUEUE_CAPACITY,
        v.after_join(player, note, has_identity).queue.no_duplicates(),
        v.queue.len() == QUEUE_CAPACITY ==> v.join_outcome(player, has_identity) == Err::<
            usize,
            SessionError,
        >(SessionError::QueueFull) || v.join_outcome(player, has_identity) == Err::<
            usize,
            SessionError,
        >(SessionError::NoIdentity),
        v.queue.len() == QUEUE_CAPACITY ==> v.after_join(player, note, has_identity) == v,
{
    if v.join_outcome(player, has_identity) is Ok {
        lemma_push_distinct(v.queue, player);
        let w = v.after_join(player, note, has_identity);
        assert forall|x: u64| w.ready.contains(x) implies w.queue.contains(x) by {
            assert(v.queue.contains(x));
        }
        if v.phase != Phase::Queue {
            assert(v.queue.len() == QUEUE_CAPACITY);
        }
        assert(w.draft_wf());
    }
}

/// During the draft, with `n` picks made so far, captain A picks when `n` is
/// even and captain B when it is odd, and fewer than eight picks have been
/// made.
pub proof fn lemma_draft_turns(v: SessionView)
    requires
        v.wf(),
        v.phase == Phase::Draft,
    ensures
        0 <= v.draft.team_a.len() + v.draft.team_b.len() - 2 < 8,
        v.draft.picker == if (v.draft.team_a.len() + v.draft.team_b.len() - 2) % 2 == 0 {
            v.draft.captain_a
        } else {
            v.draft.captain_b
        },
{
}

/// A pick that is allowed seats the target on the picking captain's team,
/// passes the turn to the other captain and adds one player to the teams;
/// after the eighth pick both teams hold five players and the side choice
/// follows.
pub proof fn lemma_pick_advances(v: SessionView, actor: u64, target: u64)
    requires
        v.wf(),
        v.pick_error(actor, target) is None,
    ensures
        v.draft.picker == Some(actor),
        ({
            let w = v.after_pick(actor, target);
            &&& w.draft.team_a.len() + w.draft.team_b.len() == v.draft.team_a.len()
                + v.draft.team_b.len() + 1
            &&& w.draft.picker != Some(actor)
            &&& (w.phase == Phase::SidePick <==> w.draft.team_a.len() + w.draft.team_b.len() == 2
                * TEAM_SIZE)
            &&& w.draft.team_a.contains(target) || w.draft.team_b.contains(target)
        }),
{
    let w = v.after_pick(actor, target);
    if v.team_of_captain(actor) == Team::A {
        assert(w.draft.team_a[w.draft.team_a.len() - 1] == target);
    } else {
        assert(w.draft.team_b[w.draft.team_b.len() - 1] == target);
    }
}

/// Once the draft is over, both teams hold five players, disjoint, all of
/// them queued.
pub proof fn lemma_draft_complete(v: SessionView)
    requires
        v.wf(),
        v.phase == Phase::SidePick || v.phase == Phase::Ready,
    ensures
        v.draft.team_a.len() == TEAM_SIZE,
        v.draft.team_b.len() == TEAM_SIZE,
        forall|x: u64| v.draft.team_a.contains(x) ==> !v.draft.team_b.contains(x),
        forall|x: u64|
            v.draft.team_a.contains(x) || v.draft.team_b.contains(x) ==> v.queue.contains(x),
{
}

/// A captain who picks out of turn is refused, and the rosters stay as they
/// were.
pub proof fn lemma_pick_out_of_turn_fails(v: SessionView, actor: u64, target: u64)
    requires
        v.wf(),
        v.phase == Phase::Draft,
        v.queue.contains(target),
        v.draft.captain_a == Some(actor) || v.draft.captain_b == Some(actor),
        v.draft.picker != Some(actor),
    ensures
        v.pick_error(actor, target) == Some(SessionError::NotYourTurn),
{
}

/// A leave keeps the session invariant.
pub proof fn lemma_leave_keeps_queue_bounded(v: SessionView, player: u64)
    requires
        v.wf(),
    ensures
        v.after_leave(player).wf(),
{
    if v.phase == Phase::Queue && v.queue.contains(player) {
        let i = v.queue.index_of(player);
        lemma_remove_distinct(v.queue, i);
        let w = v.after_leave(player);
        assert(w.ready.len() == 0);
        assert forall|x: u64| w.ready.contains(x) implies w.queue.contains(x) by {
            assert(w.ready.len() == 0);
        }
    }
}

/// Whatever sequence of joins and leaves is applied, the queue holds at
/// most ten players and none of them twice.
pub proof fn lemma_queue_ops_keep_queue_bounded(v: SessionView, ops: Seq<QueueOp>)
    requires
        v.wf(),
    ensures
        v.after_queue_ops(ops).wf(),
        v.after_queue_ops(ops).queue.len() <= QUEUE_CAPACITY,
        v.after_queue_ops(ops).queue.no_duplicates(),
    decreases ops.len(),
{
    if ops.len() > 0 {
        lemma_queue_ops_keep_queue_bounded(v, ops.drop_last());
        let prev = v.after_queue_ops(ops.drop_last());
        match ops.last() {
            QueueOp::Join(p, has_identity) => {
                lemma_join_keeps_queue_bounded(prev, p, None, has_identity);
            },
            QueueOp::Leave(p) => {
                lemma_leave_keeps_queue_bounded(prev, p);
            },
        }
    }
}

/// After the launch the session is back at its start, so no further ready
/// mark can trigger a second launch of the same lineup.
pub proof fn lemma_reset_session_refuses_ready(player: u64)
    ensures
        SessionView::initial().ready_error(player) == Some(SessionError::WrongPhase),
        SessionView::initial().wf(),
{
}

} // verus!

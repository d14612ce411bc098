//! Spacecraft missions: the registry of body-to-body transfers an embedder has
//! asked for, and the state machine each one moves through.
//!
//! A mission is searched for a launch window, then waits for the simulated
//! clock to reach the departure it found, then launches — or fails, for an
//! unknown body or a search that found no window. The search, the wait on the
//! clock and the launch itself are orbital mechanics done elsewhere; what is
//! here is what each of their outcomes does to a mission, and the bookkeeping
//! of adding, replacing and cancelling them.
//!
//! What a mission carries through its states — the transfer plan, the
//! spacecraft it launched — is the caller's and only carried here. A body's
//! frame is named by the number the solar-system tree files it under.
use vstd::prelude::*;

use crate::text::same_text;

verus! {

/// Why a mission failed.
#[derive(Debug, Clone, Copy, PartialEq, Eq, Structural)]
pub enum FailureReason {
    /// Its origin or destination is not a body the solar system holds.
    UnknownBody,
    /// The search found no solvable window in its range.
    NoWindow,
}

impl FailureReason {
    pub open spec fn spec_message(self) -> Seq<char> {
        match self {
            FailureReason::UnknownBody => "unknown body"@,
            FailureReason::NoWindow => "no transfer window found in the search range"@,
        }
    }

    /// What the failure says, as an interface shows it.
    pub fn message(self) -> (message: &'static str)
        ensures
            message@ == self.spec_message(),
    {
        match self {
            FailureReason::UnknownBody => "unknown body",
            FailureReason::NoWindow => "no transfer window found in the search range",
        }
    }
}

/// Where a mission has got to. `P` is the transfer plan a search found and
/// `E` the spacecraft a launch spawned.
pub enum MissionState<P, E> {
    /// Waiting for its window to be searched for.
    Searching,
    /// A window was found; waiting for the clock to reach its departure.
    Waiting { plan: P, origin_frame: u64, destination_frame: u64 },
    /// The spacecraft is flying, and `last_primary` is the body it was last
    /// seen orbiting.
    Launched { entity: E, plan: P, destination_frame: u64, last_primary: u64 },
    Failed { reason: FailureReason },
}

/// One mission: the id it is known by, the bodies it leaves and is bound
/// for, by name, the rest of the request it was made from, and where it has
/// got to.
pub struct Mission<Q, P, E> {
    pub id: String,
    pub origin: String,
    pub destination: String,
    pub request: Q,
    pub state: MissionState<P, E>,
}

/// What a search for a launch window came to.
pub enum SearchOutcome<P> {
    /// The origin, the destination or the Sun is not a body the solar system
    /// holds, so nothing was searched.
    UnknownBody,
    /// Searched, and nothing solvable was found.
    NoWindow,
    Found { plan: P, origin_frame: u64, destination_frame: u64 },
}

/// What a departure that the clock has reached came to.
pub enum LaunchOutcome<E> {
    /// No mass is known for the origin or the destination.
    UnknownBody,
    /// The spacecraft was spawned.
    Spawned(E),
}

/// What a mission becomes once its search is settled; a mission that is not
/// searching is left as it is.
pub open spec fn searched<P, E>(state: MissionState<P, E>, outcome: SearchOutcome<P>) -> MissionState<
    P,
    E,
> {
    match state {
        MissionState::Searching => match outcome {
            SearchOutcome::UnknownBody => MissionState::Failed { reason: FailureReason::UnknownBody },
            SearchOutcome::NoWindow => MissionState::Failed { reason: FailureReason::NoWindow },
            SearchOutcome::Found { plan, origin_frame, destination_frame } => MissionState::Waiting {
                plan,
                origin_frame,
                destination_frame,
            },
        },
        _ => state,
    }
}

/// What a waiting mission becomes once its departure is settled: launched
/// from its origin, which is then the body it is orbiting, or failed; a
/// mission that is not waiting is left as it is.
pub open spec fn launched<P, E>(state: MissionState<P, E>, outcome: LaunchOutcome<E>) -> MissionState<
    P,
    E,
> {
    match state {
        MissionState::Waiting { plan, origin_frame, destination_frame } => match outcome {
            LaunchOutcome::UnknownBody => MissionState::Failed { reason: FailureReason::UnknownBody },
            LaunchOutcome::Spawned(entity) => MissionState::Launched {
                entity,
                plan,
                destination_frame,
                last_primary: origin_frame,
            },
        },
        _ => state,
    }
}

/// How far along a mission is: searching, then waiting, then done — launched
/// or failed.
pub open spec fn stage<P, E>(state: MissionState<P, E>) -> int {
    match state {
        MissionState::Searching => 0,
        MissionState::Waiting { .. } => 1,
        MissionState::Launched { .. } => 2,
        MissionState::Failed { .. } => 2,
    }
}

/// A mission only ever moves forward: settling a search or a departure
/// leaves it where it was or moves it on, and one that has launched or failed
/// is not moved again by either.
pub proof fn missions_only_move_forward<P, E>(
    state: MissionState<P, E>,
    search: SearchOutcome<P>,
    launch: LaunchOutcome<E>,
)
    ensures
        stage(searched(state, search)) >= stage(state),
        stage(launched(state, launch)) >= stage(state),
        stage(state) == 2 ==> searched(state, search) == state && launched(state, launch) == state,
{
}

/// The bodies the solar system states a mass for, which is what a departure
/// and a capture need.
#[derive(Debug, Clone, Copy, PartialEq, Eq, Structural)]
pub enum PrimaryBody {
    Sun,
    Earth,
    Mars,
}

/// The body a name resolves to, or `None` for a body no mass is known for.
pub open spec fn spec_known_primary(name: Seq<char>) -> Option<PrimaryBody> {
    if name == "Sun"@ {
        Some(PrimaryBody::Sun)
    } else if name == "Earth"@ {
        Some(PrimaryBody::Earth)
    } else if name == "Mars"@ {
        Some(PrimaryBody::Mars)
    } else {
        None
    }
}

/// The body a name resolves to, or `None` for a body no mass is known for.
pub fn known_primary(name: &str) -> (body: Option<PrimaryBody>)
    ensures
        body == spec_known_primary(name@),
{
    if same_text(name, "Sun") {
        Some(PrimaryBody::Sun)
    } else if same_text(name, "Earth") {
        Some(PrimaryBody::Earth)
    } else if same_text(name, "Mars") {
        Some(PrimaryBody::Mars)
    } else {
        None
    }
}

/// The bodies a mission departs from and is bound for, when a mass is known
/// for both; a departure needs both.
pub open spec fn departure_of<Q, P, E>(mission: Mission<Q, P, E>) -> Option<(PrimaryBody, PrimaryBody)> {
    match (spec_known_primary(mission.origin@), spec_known_primary(mission.destination@)) {
        (Some(origin), Some(destination)) => Some((origin, destination)),
        _ => None,
    }
}

/// A mission in another state, with everything else it carries kept.
pub open spec fn with_state<Q, P, E>(mission: Mission<Q, P, E>, state: MissionState<P, E>) -> Mission<
    Q,
    P,
    E,
> {
    Mission { state, ..mission }
}

pub open spec fn searching<Q, P, E>(mission: Mission<Q, P, E>) -> bool {
    mission.state is Searching
}

/// Whether a mission whose departure the clock has reached gets a
/// spacecraft: it is waiting, and a mass is known for both its bodies.
pub open spec fn due_to_spawn<Q, P, E>(mission: Mission<Q, P, E>) -> bool {
    &&& mission.state is Waiting
    &&& departure_of(mission) is Some
}

/// What a mission whose departure the clock has reached becomes: launched
/// with a spacecraft `spawn` made from its two bodies, failed when a body has
/// no known mass, and unchanged when it was not waiting.
pub open spec fn launch_settled<Q, P, E, F: FnOnce(PrimaryBody, PrimaryBody) -> E>(
    spawn: F,
    before: Mission<Q, P, E>,
    after: Mission<Q, P, E>,
) -> bool {
    if !(before.state is Waiting) {
        after == before
    } else {
        match departure_of(before) {
            Some((origin, destination)) => exists|entity: E|
                #[trigger] call_ensures(spawn, (origin, destination), entity) && after == with_state(
                    before,
                    launched(before.state, LaunchOutcome::Spawned(entity)),
                ),
            None => after == with_state(before, launched(before.state, LaunchOutcome::UnknownBody)),
        }
    }
}

/// What a mission becomes when the searches are settled: a searching one
/// takes what `search` found between its bodies, any other is unchanged.
pub open spec fn search_settled<Q, P, E, F: Fn(&String, &String) -> SearchOutcome<P>>(
    search: F,
    before: Mission<Q, P, E>,
    after: Mission<Q, P, E>,
) -> bool {
    if before.state is Searching {
        exists|outcome: SearchOutcome<P>|
            #[trigger] call_ensures(search, (&before.origin, &before.destination), outcome) && after
                == with_state(before, searched(before.state, outcome))
    } else {
        after == before
    }
}

/// How a mission reads out to an interface.
#[derive(Debug, Clone, Copy, PartialEq, Eq, Structural)]
pub enum MissionStatus {
    Searching,
    Waiting,
    /// Launched, and not yet orbiting its destination.
    Enroute,
    /// Launched, and orbiting its destination.
    Arrived,
    Failed(FailureReason),
}

impl MissionStatus {
    pub open spec fn spec_id(self) -> Seq<char> {
        match self {
            MissionStatus::Searching => "searching"@,
            MissionStatus::Waiting => "waiting"@,
            MissionStatus::Enroute => "enroute"@,
            MissionStatus::Arrived => "arrived"@,
            MissionStatus::Failed(_) => "failed"@,
        }
    }

    pub fn id(self) -> (id: &'static str)
        ensures
            id@ == self.spec_id(),
    {
        match self {
            MissionStatus::Searching => "searching",
            MissionStatus::Waiting => "waiting",
            MissionStatus::Enroute => "enroute",
            MissionStatus::Arrived => "arrived",
            MissionStatus::Failed(_) => "failed",
        }
    }
}

/// How a mission in `state` reads out, given the body its spacecraft is
/// orbiting, where there is one.
pub open spec fn status_of<P, E>(state: MissionState<P, E>, orbiting: Option<u64>) -> MissionStatus {
    match state {
        MissionState::Searching => MissionStatus::Searching,
        MissionState::Waiting { .. } => MissionStatus::Waiting,
        MissionState::Launched { destination_frame, .. } => if orbiting == Some(destination_frame) {
            MissionStatus::Arrived
        } else {
            MissionStatus::Enroute
        },
        MissionState::Failed { reason } => MissionStatus::Failed(reason),
    }
}

/// Where the mission with this id stands in a list, if it is there.
pub open spec fn find_mission<Q, P, E>(missions: Seq<Mission<Q, P, E>>, id: Seq<char>) -> Option<
    int,
> {
    if exists|i: int| 0 <= i < missions.len() && (#[trigger] missions[i]).id@ == id {
        Some(choose|i: int| 0 <= i < missions.len() && (#[trigger] missions[i]).id@ == id)
    } else {
        None
    }
}

/// The list without the mission with this id.
pub open spec fn without<Q, P, E>(missions: Seq<Mission<Q, P, E>>, id: Seq<char>) -> Seq<
    Mission<Q, P, E>,
> {
    match find_mission(missions, id) {
        Some(k) => missions.remove(k),
        None => missions,
    }
}

/// The spacecraft cancelling the mission with this id leaves to be taken
/// down: its own, when it has launched.
pub open spec fn retired_by<Q, P, E>(missions: Seq<Mission<Q, P, E>>, id: Seq<char>) -> Seq<E> {
    match find_mission(missions, id) {
        Some(k) => match missions[k].state {
            MissionState::Launched { entity, .. } => seq![entity],
            _ => Seq::empty(),
        },
        None => Seq::empty(),
    }
}

/// Every mission asked for, in the order asked, and the spacecraft of
/// cancelled ones that are still to be taken down.
pub struct MissionSettings<Q, P, E> {
    missions: Vec<Mission<Q, P, E>>,
    retired: Vec<E>,
}

impl<Q, P, E> MissionSettings<Q, P, E> {
    pub closed spec fn missions(&self) -> Seq<Mission<Q, P, E>> {
        self.missions@
    }

    pub closed spec fn retired(&self) -> Seq<E> {
        self.retired@
    }

    /// No two missions share an id.
    pub open spec fn wf(&self) -> bool {
        forall|i: int, j: int|
            0 <= i < j < self.missions().len() ==> (#[trigger] self.missions()[i]).id@
                != (#[trigger] self.missions()[j]).id@
    }

    proof fn lemma_find(&self, id: Seq<char>, k: int)
        requires
            self.wf(),
            0 <= k < self.missions().len(),
            self.missions()[k].id@ == id,
        ensures
            find_mission(self.missions(), id) == Some(k),
    {
        let c = choose|i: int| 0 <= i < self.missions().len() && (#[trigger] self.missions()[i]).id@ == id;
        if c < k {
            assert(self.missions()[c].id@ != self.missions()[k].id@);
        }
        if c > k {
            assert(self.missions()[k].id@ != self.missions()[c].id@);
        }
    }

    /// No missions.
    pub fn new() -> (settings: Self)
        ensures
            settings.wf(),
            settings.missions().len() == 0,
            settings.retired().len() == 0,
    {
        MissionSettings { missions: Vec::new(), retired: Vec::new() }
    }

    pub fn mission_list(&self) -> (missions: &Vec<Mission<Q, P, E>>)
        ensures
            missions@ == self.missions(),
    {
        &self.missions
    }

    /// Where the mission with this id is.
    pub fn position(&self, id: &str) -> (k: Option<usize>)
        requires
            self.wf(),
        ensures
            k matches Some(k) ==> find_mission(self.missions(), id@) == Some(k as int),
            k is None ==> find_mission(self.missions(), id@) is None,
    {
        let mut i: usize = 0;
        while i < self.missions.len()
            invariant
                self.wf(),
                i <= self.missions@.len(),
                forall|j: int| 0 <= j < i ==> (#[trigger] self.missions@[j]).id@ != id@,
            decreases self.missions@.len() - i,
        {
            if same_text(self.missions[i].id.as_str(), id) {
                proof {
                    self.lemma_find(id@, i as int);
                }
                return Some(i);
            }
            i = i + 1;
        }
        None
    }

    /// Cancels a mission, and says whether there was one. A spacecraft it had
    /// already launched is left to be taken down.
    pub fn remove(&mut self, id: &str) -> (removed: bool)
        requires
            old(self).wf(),
        ensures
            final(self).wf(),
            removed == (find_mission(old(self).missions(), id@) is Some),
            final(self).missions() == without(old(self).missions(), id@),
            final(self).retired() == old(self).retired() + retired_by(old(self).missions(), id@),
    {
        match self.position(id) {
            None => {
                assert(self.retired@ + Seq::<E>::empty() =~= self.retired@);
                false
            },
            Some(k) => {
                let ghost before = self.missions@;
                let mission = self.missions.remove(k);
                proof {
                    assert forall|i: int, j: int|
                        0 <= i < j < self.missions@.len() implies (#[trigger] self.missions@[i]).id@
                        != (#[trigger] self.missions@[j]).id@ by {
                        let (a, b) = (if i < k { i } else { i + 1 }, if j < k { j } else { j + 1 });
                        assert(self.missions@[i] == before[a]);
                        assert(self.missions@[j] == before[b]);
                    }
                }
                match mission.state {
                    MissionState::Launched { entity, .. } => {
                        self.retired.push(entity);
                    },
                    _ => {
                        assert(self.retired@ + Seq::<E>::empty() =~= self.retired@);
                    },
                }
                true
            },
        }
    }

    /// Queues a mission, replacing any already under the same id; it starts
    /// out searching.
    pub fn add(&mut self, id: String, origin: String, destination: String, request: Q)
        requires
            old(self).wf(),
        ensures
            final(self).wf(),
            final(self).missions() == without(old(self).missions(), id@).push(
                Mission { id, origin, destination, request, state: MissionState::Searching },
            ),
            final(self).retired() == old(self).retired() + retired_by(old(self).missions(), id@),
    {
        self.remove(id.as_str());
        proof {
            assert forall|i: int| 0 <= i < self.missions@.len() implies (#[trigger] self.missions@[i]).id@
                != id@ by {
                if self.missions@[i].id@ == id@ {
                    self.lemma_find(id@, i);
                }
            }
        }
        self.missions.push(Mission { id, origin, destination, request, state: MissionState::Searching });
    }

    /// Settles the search of the mission at `index`.
    pub fn settle_search(&mut self, index: usize, outcome: SearchOutcome<P>)
        requires
            old(self).wf(),
            index < old(self).missions().len(),
        ensures
            final(self).wf(),
            final(self).missions() == old(self).missions().update(
                index as int,
                Mission {
                    state: searched(old(self).missions()[index as int].state, outcome),
                    ..old(self).missions()[index as int]
                },
            ),
            final(self).retired() == old(self).retired(),
    {
        let ghost before = self.missions@;
        let mission = self.missions.remove(index);
        let Mission { id, origin, destination, request, state } = mission;
        let state = match state {
            MissionState::Searching => match outcome {
                SearchOutcome::UnknownBody => MissionState::Failed {
                    reason: FailureReason::UnknownBody,
                },
                SearchOutcome::NoWindow => MissionState::Failed { reason: FailureReason::NoWindow },
                SearchOutcome::Found { plan, origin_frame, destination_frame } => {
                    MissionState::Waiting { plan, origin_frame, destination_frame }
                },
            },
            state => state,
        };
        self.missions.insert(index, Mission { id, origin, destination, request, state });
        proof {
            assert(self.missions@ =~= before.update(
                index as int,
                Mission { state: searched(before[index as int].state, outcome), ..before[index as int] },
            ));
        }
    }

    /// Settles the departure of the mission at `index`, once the clock has
    /// reached it.
    pub fn settle_launch(&mut self, index: usize, outcome: LaunchOutcome<E>)
        requires
            old(self).wf(),
            index < old(self).missions().len(),
        ensures
            final(self).wf(),
            final(self).missions() == old(self).missions().update(
                index as int,
                Mission {
                    state: launched(old(self).missions()[index as int].state, outcome),
                    ..old(self).missions()[index as int]
                },
            ),
            final(self).retired() == old(self).retired(),
    {
        let ghost before = self.missions@;
        let mission = self.missions.remove(index);
        let Mission { id, origin, destination, request, state } = mission;
        let state = match state {
            MissionState::Waiting { plan, origin_frame, destination_frame } => match outcome {
                LaunchOutcome::UnknownBody => MissionState::Failed {
                    reason: FailureReason::UnknownBody,
                },
                LaunchOutcome::Spawned(entity) => MissionState::Launched {
                    entity,
                    plan,
                    destination_frame,
                    last_primary: origin_frame,
                },
            },
            state => state,
        };
        self.missions.insert(index, Mission { id, origin, destination, request, state });
        proof {
            assert(self.missions@ =~= before.update(
                index as int,
                Mission { state: launched(before[index as int].state, outcome), ..before[index as int] },
            ));
        }
    }

    /// Records the body a launched mission's spacecraft now orbits, and says
    /// whether that is news: it is when the mission has launched and the body
    /// is not the one it was last seen orbiting.
    pub fn note_primary(&mut self, index: usize, current: u64) -> (changed: bool)
        requires
            old(self).wf(),
            index < old(self).missions().len(),
        ensures
            final(self).wf(),
            changed == (old(self).missions()[index as int].state matches MissionState::Launched {
                last_primary,
                ..
            } && last_primary != current),
            final(self).missions() == if changed {
                old(self).missions().update(
                    index as int,
                    Mission {
                        state: match old(self).missions()[index as int].state {
                            MissionState::Launched { entity, plan, destination_frame, .. } => {
                                MissionState::Launched {
                                    entity,
                                    plan,
                                    destination_frame,
                                    last_primary: current,
                                }
                            },
                            state => state,
                        },
                        ..old(self).missions()[index as int]
                    },
                )
            } else {
                old(self).missions()
            },
            final(self).retired() == old(self).retired(),
    {
        let moved = match &self.missions[index].state {
            MissionState::Launched { last_primary, .. } => *last_primary != current,
            _ => false,
        };
        if !moved {
            return false;
        }
        let ghost before = self.missions@;
        let mission = self.missions.remove(index);
        let Mission { id, origin, destination, request, state } = mission;
        let state = match state {
            MissionState::Launched { entity, plan, destination_frame, .. } => MissionState::Launched {
                entity,
                plan,
                destination_frame,
                last_primary: current,
            },
            state => state,
        };
        self.missions.insert(index, Mission { id, origin, destination, request, state });
        proof {
            assert(self.missions@ =~= before.update(
                index as int,
                Mission {
                    state: match before[index as int].state {
                        MissionState::Launched { entity, plan, destination_frame, .. } => {
                            MissionState::Launched {
                                entity,
                                plan,
                                destination_frame,
                                last_primary: current,
                            }
                        },
                        state => state,
                    },
                    ..before[index as int]
                },
            ));
        }
        true
    }

    /// How the mission at `index` reads out, given the body its spacecraft
    /// is orbiting, where there is one.
    pub fn status(&self, index: usize, orbiting: Option<u64>) -> (status: MissionStatus)
        requires
            index < self.missions().len(),
        ensures
            status == status_of(self.missions()[index as int].state, orbiting),
    {
        match &self.missions[index].state {
            MissionState::Searching => MissionStatus::Searching,
            MissionState::Waiting { .. } => MissionStatus::Waiting,
            MissionState::Launched { destination_frame, .. } => match orbiting {
                Some(frame) => if frame == *destination_frame {
                    MissionStatus::Arrived
                } else {
                    MissionStatus::Enroute
                },
                None => MissionStatus::Enroute,
            },
            MissionState::Failed { reason } => MissionStatus::Failed(*reason),
        }
    }

    /// The bodies the mission at `index` departs from and is bound for, when
    /// a mass is known for both.
    pub fn departure_bodies(&self, index: usize) -> (bodies: Option<(PrimaryBody, PrimaryBody)>)
        requires
            index < self.missions().len(),
        ensures
            bodies == departure_of(self.missions()[index as int]),
    {
        let origin = known_primary(self.missions[index].origin.as_str());
        let destination = known_primary(self.missions[index].destination.as_str());
        match (origin, destination) {
            (Some(origin), Some(destination)) => Some((origin, destination)),
            _ => None,
        }
    }

    /// Launches the mission at `index` once the clock has reached its
    /// departure: a waiting mission whose origin and destination both have a
    /// known mass gets the spacecraft `spawn` makes from them and is
    /// launched; one naming a body without is failed, and nothing is spawned;
    /// any other mission is left as it is. The return says whether a
    /// spacecraft was spawned.
    pub fn launch<F: FnOnce(PrimaryBody, PrimaryBody) -> E>(&mut self, index: usize, spawn: F) -> (spawned: bool)
        requires
            old(self).wf(),
            index < old(self).missions().len(),
            forall|origin: PrimaryBody, destination: PrimaryBody| call_requires(spawn, (origin, destination)),
        ensures
            final(self).wf(),
            final(self).retired() == old(self).retired(),
            final(self).missions().len() == old(self).missions().len(),
            forall|i: int|
                0 <= i < old(self).missions().len() && i != index ==> #[trigger] final(self).missions()[i]
                    == old(self).missions()[i],
            spawned == due_to_spawn(old(self).missions()[index as int]),
            launch_settled(spawn, old(self).missions()[index as int], final(self).missions()[index as int]),
    {
        let ghost before = self.missions@;
        let waiting = match &self.missions[index].state {
            MissionState::Waiting { .. } => true,
            _ => false,
        };
        if !waiting {
            return false;
        }
        match self.departure_bodies(index) {
            Some((origin, destination)) => {
                let entity = spawn(origin, destination);
                self.settle_launch(index, LaunchOutcome::Spawned(entity));
                assert(self.missions@[index as int] == with_state(
                    before[index as int],
                    launched(before[index as int].state, LaunchOutcome::Spawned(entity)),
                ));
                true
            },
            None => {
                self.settle_launch(index, LaunchOutcome::UnknownBody);
                false
            },
        }
    }

    /// Settles the search of every mission still searching, with what
    /// `search` finds between its origin and destination; no mission is
    /// searching afterwards, and the others are left as they are.
    pub fn settle_searches<F: Fn(&String, &String) -> SearchOutcome<P>>(&mut self, search: F)
        requires
            old(self).wf(),
            forall|origin: &String, destination: &String| call_requires(search, (origin, destination)),
        ensures
            final(self).wf(),
            final(self).retired() == old(self).retired(),
            final(self).missions().len() == old(self).missions().len(),
            forall|i: int|
                0 <= i < final(self).missions().len() ==> !searching(#[trigger] final(self).missions()[i]),
            forall|i: int|
                0 <= i < old(self).missions().len() ==> search_settled(
                    search,
                    old(self).missions()[i],
                    #[trigger] final(self).missions()[i],
                ),
    {
        let ghost start = self.missions@;
        let mut i: usize = 0;
        while i < self.missions.len()
            invariant
                self.wf(),
                self.retired@ == old(self).retired(),
                start == old(self).missions(),
                self.missions@.len() == start.len(),
                i <= start.len(),
                forall|origin: &String, destination: &String| call_requires(search, (origin, destination)),
                forall|j: int| 0 <= j < i ==> !searching(#[trigger] self.missions@[j]),
                forall|j: int| 0 <= j < i ==> search_settled(search, start[j], #[trigger] self.missions@[j]),
                forall|j: int| i <= j < start.len() ==> #[trigger] self.missions@[j] == start[j],
            decreases start.len() - i,
        {
            let ghost before = self.missions@;
            assert(before[i as int] == start[i as int]);
            let is_searching = match &self.missions[i].state {
                MissionState::Searching => true,
                _ => false,
            };
            if is_searching {
                let outcome = search(&self.missions[i].origin, &self.missions[i].destination);
                self.settle_search(i, outcome);
                assert(self.missions@[i as int] == with_state(
                    start[i as int],
                    searched(start[i as int].state, outcome),
                ));
            }
            proof {
                assert forall|j: int| 0 <= j < i + 1 implies search_settled(
                    search,
                    start[j],
                    #[trigger] self.missions@[j],
                ) by {
                    if j < i {
                        assert(self.missions@[j] == before[j]);
                    }
                }
            }
            i = i + 1;
        }
    }

    /// Takes the spacecraft of cancelled missions, each once, for the caller
    /// to take down.
    pub fn take_retired(&mut self) -> (retired: Vec<E>)
        ensures
            retired@ == old(self).retired(),
            final(self).retired().len() == 0,
            final(self).missions() == old(self).missions(),
    {
        let mut retired: Vec<E> = Vec::new();
        std::mem::swap(&mut retired, &mut self.retired);
        retired
    }
}

} // verus!

use terramenta::mission::{
    known_primary, FailureReason, LaunchOutcome, MissionSettings, MissionState, MissionStatus, PrimaryBody,
    SearchOutcome,
};

/// The rest of a request, as the tests write it: the search's grid steps.
type Request = usize;
/// A plan, as a departure day; a spacecraft, as an entity number.
type Settings = MissionSettings<Request, u32, u64>;

fn statuses(settings: &Settings) -> Vec<(String, MissionStatus)> {
    (0..settings.mission_list().len())
        .map(|index| (settings.mission_list()[index].id.clone(), settings.status(index, None)))
        .collect()
}

#[test]
fn a_mission_naming_an_unknown_body_fails_without_panicking() {
    let mut settings: Settings = MissionSettings::new();
    settings.add("test".to_string(), "Earth".to_string(), "Jupiter".to_string(), 17);
    // Jupiter is no body the solar system holds a mass for, so nothing is
    // searched and the mission fails rather than panicking.
    assert_eq!(known_primary("Jupiter"), None);
    settings.settle_search(0, SearchOutcome::UnknownBody);
    assert_eq!(settings.status(0, None), MissionStatus::Failed(FailureReason::UnknownBody));
    assert_eq!(settings.status(0, None).id(), "failed");
    assert_eq!(FailureReason::UnknownBody.message(), "unknown body");
}

#[test]
fn re_adding_a_mission_replaces_it() {
    let mut settings: Settings = MissionSettings::new();
    settings.add("a".to_string(), "Earth".to_string(), "Mars".to_string(), 17);
    settings.add("b".to_string(), "Earth".to_string(), "Mars".to_string(), 17);
    settings.settle_search(0, SearchOutcome::NoWindow);
    settings.add("a".to_string(), "Mars".to_string(), "Earth".to_string(), 17);
    // One mission under each id, the replacement searching afresh at the end.
    assert_eq!(
        statuses(&settings),
        vec![("b".to_string(), MissionStatus::Searching), ("a".to_string(), MissionStatus::Searching)]
    );
    assert_eq!(settings.mission_list()[1].origin, "Mars");
}

#[test]
fn a_mission_searches_waits_launches_and_arrives() {
    let mut settings: Settings = MissionSettings::new();
    settings.add("mars".to_string(), "Earth".to_string(), "Mars".to_string(), 17);
    settings.settle_search(0, SearchOutcome::Found { plan: 53, origin_frame: 3, destination_frame: 4 });
    assert_eq!(settings.status(0, None), MissionStatus::Waiting);
    // A second search result for a mission that is no longer searching
    // changes nothing.
    settings.settle_search(0, SearchOutcome::NoWindow);
    assert_eq!(settings.status(0, None), MissionStatus::Waiting);

    settings.settle_launch(0, LaunchOutcome::Spawned(77));
    match settings.mission_list()[0].state {
        MissionState::Launched { entity, plan, destination_frame, last_primary } => {
            assert_eq!((entity, plan, destination_frame, last_primary), (77, 53, 4, 3));
        }
        _ => panic!("the mission should have launched"),
    }
    // Leaving the origin for the Sun is news once; Mars is arrival.
    assert!(!settings.note_primary(0, 3));
    assert!(settings.note_primary(0, 0));
    assert!(!settings.note_primary(0, 0));
    assert_eq!(settings.status(0, Some(0)), MissionStatus::Enroute);
    assert_eq!(settings.status(0, Some(4)), MissionStatus::Arrived);
    assert_eq!(settings.status(0, Some(4)).id(), "arrived");
}

#[test]
fn a_departure_with_no_known_mass_fails() {
    let mut settings: Settings = MissionSettings::new();
    settings.add("x".to_string(), "Earth".to_string(), "Vulcan".to_string(), 17);
    // Launching before the search has found anything does nothing.
    settings.settle_launch(0, LaunchOutcome::Spawned(1));
    assert_eq!(settings.status(0, None), MissionStatus::Searching);
    settings.settle_search(0, SearchOutcome::Found { plan: 1, origin_frame: 3, destination_frame: 9 });
    settings.settle_launch(0, LaunchOutcome::UnknownBody);
    assert_eq!(settings.status(0, None), MissionStatus::Failed(FailureReason::UnknownBody));
}

#[test]
fn cancelling_a_launched_mission_retires_its_spacecraft() {
    let mut settings: Settings = MissionSettings::new();
    settings.add("flying".to_string(), "Earth".to_string(), "Mars".to_string(), 17);
    settings.add("waiting".to_string(), "Earth".to_string(), "Mars".to_string(), 17);
    settings.settle_search(0, SearchOutcome::Found { plan: 5, origin_frame: 3, destination_frame: 4 });
    settings.settle_launch(0, LaunchOutcome::Spawned(42));
    settings.settle_search(1, SearchOutcome::Found { plan: 6, origin_frame: 3, destination_frame: 4 });

    assert!(settings.remove("flying"));
    assert!(settings.remove("waiting"));
    assert!(!settings.remove("flying"));
    assert!(settings.mission_list().is_empty());
    // Only the one that had launched leaves a spacecraft behind, and it is
    // taken once.
    assert_eq!(settings.take_retired(), vec![42]);
    assert!(settings.take_retired().is_empty());
}

#[test]
fn only_the_bodies_with_a_known_mass_resolve() {
    assert_eq!(known_primary("Sun"), Some(PrimaryBody::Sun));
    assert_eq!(known_primary("Earth"), Some(PrimaryBody::Earth));
    assert_eq!(known_primary("Mars"), Some(PrimaryBody::Mars));
    assert_eq!(known_primary("earth"), None);
    assert_eq!(FailureReason::NoWindow.message(), "no transfer window found in the search range");
    assert_eq!(MissionStatus::Enroute.id(), "enroute");
}

#[test]
fn a_launch_follows_the_names_of_the_bodies() {
    let mut settings: Settings = MissionSettings::new();
    settings.add("mars".to_string(), "Earth".to_string(), "Mars".to_string(), 17);
    settings.add("vulcan".to_string(), "Earth".to_string(), "Vulcan".to_string(), 17);
    settings.add("later".to_string(), "Earth".to_string(), "Mars".to_string(), 17);
    settings.settle_search(0, SearchOutcome::Found { plan: 53, origin_frame: 3, destination_frame: 4 });
    settings.settle_search(1, SearchOutcome::Found { plan: 60, origin_frame: 3, destination_frame: 9 });
    assert_eq!(settings.departure_bodies(0), Some((PrimaryBody::Earth, PrimaryBody::Mars)));
    assert_eq!(settings.departure_bodies(1), None);

    let mut spawned = Vec::new();
    assert!(settings.launch(0, |origin, destination| {
        spawned.push((origin, destination));
        99
    }));
    // A body with no known mass fails the mission, and nothing is spawned.
    assert!(!settings.launch(1, |_, _| panic!("nothing is spawned for an unknown body")));
    // A mission still searching is not launched.
    assert!(!settings.launch(2, |_, _| panic!("nothing is spawned before a window")));
    assert_eq!(spawned, vec![(PrimaryBody::Earth, PrimaryBody::Mars)]);
    assert_eq!(settings.status(0, None), MissionStatus::Enroute);
    assert_eq!(settings.status(1, None), MissionStatus::Failed(FailureReason::UnknownBody));
    assert_eq!(settings.status(2, None), MissionStatus::Searching);
}

#[test]
fn settling_the_searches_leaves_no_mission_searching() {
    let mut settings: Settings = MissionSettings::new();
    settings.add("mars".to_string(), "Earth".to_string(), "Mars".to_string(), 17);
    settings.add("jupiter".to_string(), "Earth".to_string(), "Jupiter".to_string(), 17);
    settings.add("none".to_string(), "Mars".to_string(), "Earth".to_string(), 17);
    settings.settle_search(2, SearchOutcome::NoWindow);
    settings.settle_searches(|origin, destination| match (origin.as_str(), destination.as_str()) {
        ("Earth", "Mars") => SearchOutcome::Found { plan: 53, origin_frame: 3, destination_frame: 4 },
        ("Earth", "Jupiter") => SearchOutcome::UnknownBody,
        _ => panic!("a settled mission is not searched again"),
    });
    assert_eq!(settings.status(0, None), MissionStatus::Waiting);
    assert_eq!(settings.status(1, None), MissionStatus::Failed(FailureReason::UnknownBody));
    assert_eq!(settings.status(2, None), MissionStatus::Failed(FailureReason::NoWindow));
}

use vesktop_voice_overlay::config::{Config, NameDisplayMode, SocketConfig, UserDisplayMode};
use vesktop_voice_overlay::participants::{
    compare_duplicate, desired_participants, is_name_visible, is_user_visible, row_appearance,
    rows_to_remove, to_participant,
};
use vesktop_voice_overlay::protocol::{Participant, ParticipantSelf, Snapshot, PROTOCOL_VERSION};
use vesktop_voice_overlay::text::Order;

fn make_participant(id: &str, name: &str, speaking: bool, mute: bool, deaf: bool) -> Participant {
    Participant {
        user_id: id.to_string(),
        username: name.to_string(),
        avatar_url: String::new(),
        mute,
        deaf,
        speaking,
        volume: None,
    }
}

fn snapshot(participants: Vec<Participant>) -> Snapshot {
    Snapshot {
        version: PROTOCOL_VERSION,
        timestamp: 0,
        self_: ParticipantSelf {
            user_id: "me".into(),
            username: "Me".into(),
            avatar_url: String::new(),
            mute: false,
            deaf: false,
            speaking: true,
        },
        participants,
    }
}

fn default_config() -> Config {
    Config::with_socket(SocketConfig { path: String::new() })
}

#[test]
fn ordering_is_deterministic_for_equivalent_snapshots() {
    let participants = vec![
        make_participant("c", "Charlie", false, false, false),
        make_participant("a", "alice", false, false, false),
        make_participant("b", "Bob", false, false, false),
    ];
    let mut config = default_config();
    config.overlay.user_display = UserDisplayMode::Always;

    let desired = desired_participants(&config, &snapshot(participants));
    let ids: Vec<_> = desired.iter().map(|(id, _)| id.as_str()).collect();
    assert_eq!(ids, ["me", "a", "b", "c"]);
}

#[test]
fn speaking_state_change_does_not_alter_ordering() {
    let not_speaking = vec![
        make_participant("b", "Bob", false, false, false),
        make_participant("a", "Alice", false, false, false),
    ];
    let speaking = vec![
        make_participant("b", "Bob", true, false, false),
        make_participant("a", "Alice", true, false, false),
    ];

    let mut config = default_config();
    config.overlay.user_display = UserDisplayMode::Always;
    let s1 = desired_participants(&config, &snapshot(not_speaking));
    let s2 = desired_participants(&config, &snapshot(speaking));

    let ids1: Vec<_> = s1.iter().map(|(id, _)| id.as_str()).collect();
    let ids2: Vec<_> = s2.iter().map(|(id, _)| id.as_str()).collect();
    assert_eq!(ids1, ids2, "speaking state must not change ordering");
}

#[test]
fn self_sorts_first_regardless_of_username() {
    let participants = vec![
        make_participant("me", "Duplicate self", true, false, false),
        make_participant("a", "Alice", false, false, false),
        make_participant("m", "Bob", false, false, false),
    ];
    let mut config = default_config();
    config.overlay.user_display = UserDisplayMode::Always;
    let desired = desired_participants(&config, &snapshot(participants));

    assert_eq!(desired[0].0, "me", "self must always be first");
    assert_eq!(desired[0].1.username, "Me", "duplicate self is ignored");
    assert_eq!(desired[1].1.username, "Alice");
    assert_eq!(desired[2].1.username, "Bob");
}

#[test]
fn max_participants_is_applied_after_sorting_and_deduplication() {
    let mut config = default_config();
    config.overlay.user_display = UserDisplayMode::Always;
    config.overlay.max_participants = 2;
    let participants = vec![
        make_participant("z", "Zulu", false, false, false),
        make_participant("a", "Alice", false, false, false),
        make_participant("a", "Duplicate Alice", false, false, false),
        make_participant("b", "Bob", false, false, false),
    ];

    let desired = desired_participants(&config, &snapshot(participants.clone()));
    let ids: Vec<_> = desired.iter().map(|(id, _)| id.as_str()).collect();
    assert_eq!(ids, ["me", "a", "b"]);
    assert_eq!(desired[1].1.username, "Alice");

    let reversed =
        desired_participants(&config, &snapshot(participants.into_iter().rev().collect()));
    let reversed_values: Vec<_> = reversed
        .into_iter()
        .map(|(id, participant)| (id, participant.username))
        .collect();
    let desired_values: Vec<_> = desired
        .into_iter()
        .map(|(id, participant)| (id, participant.username))
        .collect();
    assert_eq!(reversed_values, desired_values);
}

#[test]
fn speaking_only_hides_silent_participants_and_self() {
    let config = default_config();
    let mut snap = snapshot(vec![
        make_participant("a", "Alice", true, false, false),
        make_participant("b", "Bob", false, false, false),
    ]);
    snap.self_.speaking = false;
    let desired = desired_participants(&config, &snap);
    let ids: Vec<_> = desired.iter().map(|(id, _)| id.as_str()).collect();
    assert_eq!(ids, ["a"]);
}

#[test]
fn equal_names_fall_back_to_user_id_order() {
    let mut config = default_config();
    config.overlay.user_display = UserDisplayMode::Always;
    let desired = desired_participants(
        &config,
        &snapshot(vec![
            make_participant("y", "sam", false, false, false),
            make_participant("x", "SAM", false, false, false),
        ]),
    );
    let ids: Vec<_> = desired.iter().map(|(id, _)| id.as_str()).collect();
    assert_eq!(ids, ["me", "x", "y"]);
}

#[test]
fn zero_cap_shows_only_self() {
    let mut config = default_config();
    config.overlay.user_display = UserDisplayMode::Always;
    config.overlay.max_participants = 0;
    let desired = desired_participants(
        &config,
        &snapshot(vec![make_participant("a", "Alice", true, false, false)]),
    );
    assert_eq!(desired.len(), 1);
    assert_eq!(desired[0].0, "me");
}

#[test]
fn duplicate_order_compares_fields_in_turn() {
    let a = make_participant("a", "alice", false, false, false);
    let b = make_participant("a", "Alice", false, false, false);
    assert_eq!(compare_duplicate(&a, &a), Order::Equal);
    // Same lowercase name: "Alice" sorts before "alice" by bytes.
    assert_eq!(compare_duplicate(&b, &a), Order::Less);
    let muted = make_participant("a", "alice", false, true, false);
    assert_eq!(compare_duplicate(&a, &muted), Order::Less);
    let mut loud = make_participant("a", "alice", false, false, false);
    loud.volume = Some(5);
    assert_eq!(compare_duplicate(&loud, &a), Order::Greater);
}

#[test]
fn visibility_rules() {
    let silent = make_participant("a", "A", false, false, false);
    let talking = make_participant("a", "A", true, false, false);
    assert!(is_user_visible(UserDisplayMode::Always, &silent));
    assert!(!is_user_visible(UserDisplayMode::SpeakingOnly, &silent));
    assert!(is_user_visible(UserDisplayMode::SpeakingOnly, &talking));
    assert!(!is_name_visible(NameDisplayMode::Never, &talking));
    assert!(is_name_visible(NameDisplayMode::SpeakingOnly, &talking));
    assert!(!is_name_visible(NameDisplayMode::SpeakingOnly, &silent));
    assert!(is_name_visible(NameDisplayMode::Always, &silent));
}

#[test]
fn deaf_badge_replaces_mute_badge() {
    let both = make_participant("a", "A", true, true, true);
    let look = row_appearance(&both, NameDisplayMode::Always);
    assert!(look.show_deaf && !look.show_mute && look.speaking && look.name_visible);
    let muted = make_participant("a", "A", false, true, false);
    let look = row_appearance(&muted, NameDisplayMode::SpeakingOnly);
    assert!(look.show_mute && !look.show_deaf && !look.name_visible);
}

#[test]
fn self_becomes_a_participant_without_volume() {
    let me = ParticipantSelf {
        user_id: "1".into(),
        username: "Me".into(),
        avatar_url: "u".into(),
        mute: true,
        deaf: false,
        speaking: true,
    };
    let p = to_participant(&me);
    assert_eq!(p, Participant {
        user_id: "1".into(),
        username: "Me".into(),
        avatar_url: "u".into(),
        mute: true,
        deaf: false,
        speaking: true,
        volume: None,
    });
}

#[test]
fn departed_rows_are_removed() {
    let existing = vec!["a".to_string(), "b".to_string(), "c".to_string()];
    let desired = vec![(
        "b".to_string(),
        make_participant("b", "Bob", true, false, false),
    )];
    assert_eq!(rows_to_remove(&existing, &desired), vec!["a".to_string(), "c".to_string()]);
}

#[test]
fn selection_never_repeats_a_user_id() {
    let mut config = default_config();
    config.overlay.user_display = UserDisplayMode::Always;
    let participants = vec![
        make_participant("me", "Me again", true, false, false),
        make_participant("a", "Alice", false, false, false),
        make_participant("a", "alice", true, false, false),
        make_participant("b", "Bob", false, false, false),
        make_participant("a", "Alice", false, true, false),
    ];
    let desired = desired_participants(&config, &snapshot(participants));
    assert!(vesktop_voice_overlay::rows::ids_distinct(&desired));
    let ids: Vec<_> = desired.iter().map(|(id, _)| id.as_str()).collect();
    assert_eq!(ids, ["me", "a", "b"]);
}

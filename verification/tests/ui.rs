use mars_resource_ops::communication::base::Base;
use mars_resource_ops::communication::{Message, RobotId};
use mars_resource_ops::robots::{CarriedResource, RobotKind, RobotSnapshot, RobotState};
use mars_resource_ops::text::{chars_of, text_contains};
use mars_resource_ops::ui::{
    event_tone, fleet_rows, robot_short_label, robots_by_id, spinner_frame, EventTone,
};
use mars_resource_ops::utils::Position;
use mars_resource_ops::world::ResourceKind;

fn robot(id: usize, kind: RobotKind, state: RobotState, cargo: Option<CarriedResource>) -> RobotSnapshot {
    RobotSnapshot { id: RobotId(id), kind, position: Position::new(0, 0), cargo, state }
}

#[test]
fn robot_labels_pad_the_state() {
    let scout = robot(0, RobotKind::Scout, RobotState::Exploring, None);
    assert_eq!(robot_short_label(&scout), format!("R{} {} {:>9}", 0, "S", "exploring"));
    assert_eq!(robot_short_label(&scout), "R0 S exploring");

    let collector = robot(
        12,
        RobotKind::Collector,
        RobotState::Carrying,
        Some(CarriedResource { kind: ResourceKind::Crystal, amount: 3 }),
    );
    assert_eq!(robot_short_label(&collector), "R12 C  carrying C3");

    let waiting = robot(5, RobotKind::Collector, RobotState::ReturningToBase, None);
    assert_eq!(robot_short_label(&waiting), "R5 C   to base");
}

#[test]
fn event_tones_follow_the_keywords_in_order() {
    assert_eq!(event_tone("R4 depose 1 energie a la base"), EventTone::Deposit);
    assert_eq!(event_tone("R4 collecte 1 cristal en (3, 4)"), EventTone::Collect);
    // "collecte" is found before "refuse" is looked for.
    assert_eq!(event_tone("R4 collecte refusee en (1, 0)"), EventTone::Collect);
    assert_eq!(event_tone("R1 decouvre 80 energie en (2, 2)"), EventTone::Discovery);
    assert_eq!(event_tone("R4 deplacement refuse vers (-2, 3)"), EventTone::Failure);
    assert_eq!(event_tone("R6 aucun chemin vers ressource (9, 9)"), EventTone::Failure);
    assert_eq!(event_tone("Mission initialisee : robots deployes depuis la base"), EventTone::Plain);
    assert_eq!(event_tone(""), EventTone::Plain);
}

#[test]
fn text_search_finds_words_anywhere() {
    let text = chars_of("abcabd");
    assert!(text_contains(&text, &chars_of("abd")));
    assert!(text_contains(&text, &chars_of("")));
    assert!(!text_contains(&text, &chars_of("abe")));
    assert!(!text_contains(&chars_of("ab"), &chars_of("abc")));
    assert_eq!(chars_of("été"), vec!['é', 't', 'é']);
}

#[test]
fn spinner_cycles_every_four_ticks() {
    let frames: Vec<&str> = (0..6).map(spinner_frame).collect();
    assert_eq!(frames, vec!["|", "/", "-", "\\", "|", "/"]);
}

#[test]
fn fleet_is_sorted_then_paired() {
    let robots = vec![
        robot(3, RobotKind::Collector, RobotState::Waiting, None),
        robot(0, RobotKind::Scout, RobotState::Exploring, None),
        robot(2, RobotKind::Collector, RobotState::Moving, None),
        robot(1, RobotKind::Scout, RobotState::Exploring, None),
        robot(4, RobotKind::Collector, RobotState::Waiting, None),
    ];
    let sorted = robots_by_id(&robots);
    let ids: Vec<usize> = sorted.iter().map(|r| r.id.0).collect();
    assert_eq!(ids, vec![0, 1, 2, 3, 4]);

    let rows = fleet_rows(&sorted);
    assert_eq!(rows.len(), 3);
    assert_eq!((rows[0].0.id, rows[0].1.map(|r| r.id)), (RobotId(0), Some(RobotId(1))));
    assert_eq!((rows[1].0.id, rows[1].1.map(|r| r.id)), (RobotId(2), Some(RobotId(3))));
    assert_eq!((rows[2].0.id, rows[2].1), (RobotId(4), None));
    assert!(fleet_rows(&Vec::new()).is_empty());
}

#[test]
fn base_refuses_a_deposit_that_overflows() {
    let mut base = Base::new(Position::new(0, 0));
    let big = Message::Deposit { kind: ResourceKind::Energy, amount: u32::MAX };
    assert!(base.accepts(&big));
    base.apply(&big);
    assert!(!base.accepts(&Message::Deposit { kind: ResourceKind::Energy, amount: 1 }));
    assert!(base.accepts(&Message::Deposit { kind: ResourceKind::Crystal, amount: 1 }));
    assert!(base.accepts(&Message::ObstacleFound { position: Position::new(1, 1) }));
}

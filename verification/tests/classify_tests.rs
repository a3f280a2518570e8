use falldown::Entity;
use falldown::falldown::{Affiliation, CollectionEvent, ColorType, classify};

fn e(index: u32) -> Entity {
    Entity { index, generation: 0 }
}

#[test]
fn player_touching_matching_enemy_is_a_correct_catch() {
    let out = classify(
        e(1),
        Some(Affiliation::Player(ColorType::Red)),
        e(2),
        Some(Affiliation::Enemy(ColorType::Red)),
    );
    assert_eq!(
        out,
        CollectionEvent::CaughtBlock {
            player: e(1),
            block: e(2),
            color: ColorType::Red,
            is_correct: true,
        }
    );
}

#[test]
fn player_touching_mismatched_enemy_is_a_miss() {
    let out = classify(
        e(1),
        Some(Affiliation::Player(ColorType::Red)),
        e(2),
        Some(Affiliation::Enemy(ColorType::Blue)),
    );
    assert_eq!(
        out,
        CollectionEvent::CaughtBlock {
            player: e(1),
            block: e(2),
            color: ColorType::Blue,
            is_correct: false,
        }
    );
}

#[test]
fn classification_is_order_independent() {
    let a1 = Some(Affiliation::Player(ColorType::Green));
    let a2 = Some(Affiliation::Enemy(ColorType::Green));
    assert_eq!(classify(e(1), a1, e(2), a2), classify(e(2), a2, e(1), a1));
    let b1 = Some(Affiliation::Player(ColorType::Purple));
    let b2 = Some(Affiliation::Enemy(ColorType::Orange));
    assert_eq!(classify(e(3), b1, e(4), b2), classify(e(4), b2, e(3), b1));
}

#[test]
fn same_side_or_untagged_pairs_are_anomalies() {
    let enemy = Some(Affiliation::Enemy(ColorType::Red));
    let player = Some(Affiliation::Player(ColorType::Red));
    assert_eq!(classify(e(1), enemy, e(2), enemy), CollectionEvent::Unknown);
    assert_eq!(classify(e(1), player, e(2), player), CollectionEvent::Unknown);
    assert_eq!(classify(e(1), None, e(2), enemy), CollectionEvent::Unknown);
    assert_eq!(classify(e(1), player, e(2), None), CollectionEvent::Unknown);
}

#[test]
fn conversion_from_participants_matches_classification() {
    let a1 = Some(Affiliation::Enemy(ColorType::Orange));
    let a2 = Some(Affiliation::Player(ColorType::Orange));
    let out = CollectionEvent::from((e(5), a1, e(6), a2));
    assert_eq!(
        out,
        CollectionEvent::CaughtBlock {
            player: e(6),
            block: e(5),
            color: ColorType::Orange,
            is_correct: true,
        }
    );
}

#[test]
fn color_sampling_maps_every_draw() {
    assert_eq!(ColorType::from_index(0), ColorType::Green);
    assert_eq!(ColorType::from_index(1), ColorType::Blue);
    assert_eq!(ColorType::from_index(2), ColorType::Orange);
    assert_eq!(ColorType::from_index(3), ColorType::Purple);
    assert_eq!(ColorType::from_index(4), ColorType::Red);
}

//! Tests for transforms and the id-keyed game state.

use lagnet::state::{ClientState, GameState, Position, Rotation, Transform};

#[test]
fn transform_constructors() {
    let t = Transform::new();
    assert_eq!(t.position, Position(0, 0, 0));
    assert_eq!(t.rotation, Rotation(0));

    let t = Transform::from_position(Position(1, 2, 3));
    assert_eq!(t.position, Position(1, 2, 3));
    assert_eq!(t.rotation, Rotation(0));

    let t = Transform::from_rotation(Rotation(90));
    assert_eq!(t.position, Position(0, 0, 0));
    assert_eq!(t.rotation, Rotation(90));

    let t = Transform::from_components(Position(4, 5, 6), Rotation(-45));
    assert_eq!(t.position, Position(4, 5, 6));
    assert_eq!(t.rotation, Rotation(-45));
}

#[test]
fn position_add() {
    assert_eq!(Position(1, 2, 3).add(Position(10, 20, 30)), Position(11, 22, 33));
}

#[test]
fn client_state_new_is_origin() {
    let cs = ClientState::new(9);
    assert_eq!(cs.id, 9);
    assert_eq!(cs.position, Position(0, 0, 0));
    assert_eq!(cs.rotation, Rotation(0));
}

#[test]
fn game_state_insert_and_values() {
    let mut gs = GameState::new();
    assert_eq!(gs.len(), 0);
    let mut update = Vec::new();
    update.push(ClientState::new(2));
    update.push(ClientState {
        id: 3,
        position: Position(7, 8, 9),
        rotation: Rotation(1),
    });
    gs.update_from_vec(&update);
    assert_eq!(gs.len(), 2);
    assert_eq!(gs.values(), update);
    assert_eq!(gs.get(3).unwrap().position, Position(7, 8, 9));
    assert_eq!(gs.get(4), None);
}

#[test]
fn game_state_update_from_vec_last_wins() {
    // Two records share an id: the later one overwrites the earlier,
    // keeping its slot.
    let mut gs = GameState::new();
    let update = vec![
        ClientState {
            id: 2,
            position: Position(1, 1, 1),
            rotation: Rotation(0),
        },
        ClientState {
            id: 3,
            position: Position(2, 2, 2),
            rotation: Rotation(0),
        },
        ClientState {
            id: 2,
            position: Position(9, 9, 9),
            rotation: Rotation(5),
        },
    ];
    gs.update_from_vec(&update);
    assert_eq!(gs.len(), 2);
    assert_eq!(gs.get(2).unwrap().position, Position(9, 9, 9));
    assert_eq!(gs.get(2).unwrap().rotation, Rotation(5));
    assert_eq!(gs.get(3).unwrap().position, Position(2, 2, 2));
}

#[test]
fn game_state_update_replaces_previous_contents() {
    let mut gs = GameState::new();
    gs.update_from_vec(&vec![ClientState::new(2), ClientState::new(3)]);
    gs.update_from_vec(&vec![ClientState::new(4)]);
    assert_eq!(gs.len(), 1);
    assert_eq!(gs.get(2), None);
    assert_eq!(gs.get(3), None);
    assert_eq!(gs.get(4), Some(ClientState::new(4)));
}

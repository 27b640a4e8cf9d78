use server::objects::{get_player_obj_ids, move_obj, Direction, Object, ObjectModel, Position, Transform};
use server::types;

fn obj(id: &str, owner: &str) -> Object {
    Object::new_with_id(id.to_string(), owner.to_string(), ObjectModel::Player)
}

#[test]
fn new_object_at_origin() {
    let o = obj("a", "p");
    assert_eq!(o.transform.position, Position::new(0, 0, 0));
    assert_eq!(o.get_id(), "a");
    assert_eq!(o.get_owner(), "p");
    assert_eq!(Transform::new(1, 2, 3).position, Position { x: 1, y: 2, z: 3 });
}

#[test]
fn setters_change_one_coordinate() {
    let mut o = obj("a", "p");
    o.set_x(5);
    o.set_y(-6);
    o.set_z(7);
    assert_eq!(o.transform.position, Position::new(5, -6, 7));
    o.set_pos(Position::new(1, 1, 1));
    assert_eq!(o.transform.position, Position::new(1, 1, 1));
}

#[test]
fn sums_add_to_coordinates() {
    let mut o = obj("a", "p");
    o.sum_x(3);
    o.sum_y(-2);
    o.sum_z(10);
    o.sum_x(-1);
    assert_eq!(o.transform.position, Position::new(2, -2, 10));
}

#[test]
fn moves_by_direction() {
    let mut o = obj("a", "p");
    move_obj(&mut o, Direction::NORTH);
    assert_eq!(o.transform.position, Position::new(0, 0, -1));
    move_obj(&mut o, Direction::EAST);
    assert_eq!(o.transform.position, Position::new(1, 0, -1));
    move_obj(&mut o, Direction::SOUTH);
    move_obj(&mut o, Direction::WEST);
    assert_eq!(o.transform.position, Position::new(0, 0, 0));
    move_obj(&mut o, Direction::NORTHWEST);
    move_obj(&mut o, Direction::SOUTHEAST);
    assert_eq!(o.transform.position, Position::new(0, 0, 0));
}

#[test]
fn owned_ids_in_order() {
    let objects = vec![obj("1", "a"), obj("2", "b"), obj("3", "a")];
    assert_eq!(get_player_obj_ids(&objects, &"a".to_string()), vec!["1".to_string(), "3".to_string()]);
    assert!(get_player_obj_ids(&objects, &"c".to_string()).is_empty());
}

#[test]
fn plain_object_type() {
    let mut o = types::Object::new("x".to_string(), "peer".to_string(), types::ObjectModel::Player);
    assert_eq!(o.transform.position, types::Position::new(0, 0, 0));
    o.set_pos(4, 5, 6);
    assert_eq!(o.transform.position, types::Position { x: 4, y: 5, z: 6 });
    assert_eq!(o.get_owner(), "peer");
    assert_eq!(types::Transform::new(1, 1, 1).position, types::Position::new(1, 1, 1));
}

use aotenjo::models::tile::Tile;
use aotenjo::models::wall::Wall;

#[test]
fn test_wall_creation() {
    let wall = Wall::new(42);
    assert_eq!(wall.remaining(), 136);
    assert_eq!(wall.drawn_count(), 0);
}

#[test]
fn test_wall_draw() {
    let mut wall = Wall::new(42);
    let tiles = wall.draw(14);
    assert_eq!(tiles.len(), 14);
    assert_eq!(wall.remaining(), 122);
    assert_eq!(wall.drawn_count(), 14);
}

#[test]
fn test_wall_draw_more_than_remaining() {
    let mut wall = Wall::new(42);
    let tiles = wall.draw(200);
    assert_eq!(tiles.len(), 136);
    assert_eq!(wall.remaining(), 0);
}

#[test]
fn test_deterministic_shuffle() {
    let mut wall1 = Wall::new(12345);
    let mut wall2 = Wall::new(12345);
    let tiles1 = wall1.draw(10);
    let tiles2 = wall2.draw(10);
    assert_eq!(tiles1, tiles2);
}

#[test]
fn test_different_seeds_different_order() {
    let mut wall1 = Wall::new(12345);
    let mut wall2 = Wall::new(54321);
    let tiles1 = wall1.draw(10);
    let tiles2 = wall2.draw(10);
    assert_ne!(tiles1, tiles2);
}

#[test]
fn shuffle_is_a_permutation_of_the_standard_set() {
    let wall = Wall::new(7);
    let mut ids: Vec<u32> = wall.peek_remaining().iter().map(|t| t.id).collect();
    assert_ne!(ids, (0..136).collect::<Vec<u32>>());
    ids.sort();
    assert_eq!(ids, (0..136).collect::<Vec<u32>>());
    assert_eq!(wall.initial_count(), 136);
}

#[test]
fn draw_moves_front_tiles_to_drawn_pile() {
    let mut wall = Wall::new(3);
    let before: Vec<Tile> = wall.peek_remaining().to_vec();
    let a = wall.draw(5);
    let b = wall.draw(2);
    assert_eq!(a.as_slice(), &before[0..5]);
    assert_eq!(b.as_slice(), &before[5..7]);
    assert_eq!(wall.peek_drawn(), &before[0..7]);
    assert_eq!(wall.peek_remaining(), &before[7..]);
    assert_eq!(wall.remaining() + wall.drawn_count(), wall.initial_count());
}

#[test]
fn remove_and_add_tiles() {
    let mut wall = Wall::new(9);
    let before: Vec<Tile> = wall.peek_remaining().to_vec();
    let removed = wall.remove_by_ids(&[5, 100, 999]);
    let removed_ids: Vec<u32> = removed.iter().map(|t| t.id).collect();
    let expected: Vec<u32> = before.iter().map(|t| t.id).filter(|id| *id == 5 || *id == 100).collect();
    assert_eq!(removed_ids, expected);
    assert_eq!(wall.remaining(), 134);
    assert!(wall.peek_remaining().iter().all(|t| t.id != 5 && t.id != 100));
    wall.add_tiles(removed.clone());
    assert_eq!(wall.remaining(), 136);
    assert_eq!(&wall.peek_remaining()[134..], removed.as_slice());
}

use tile_editor::container::{Container2d, Indexer};
use tile_editor::image::Image;
use tile_editor::point::Point2;
use tile_editor::scene::{Scene, Tile};

#[test]
fn point_constructors() {
    let p = Point2::new(3, -4);
    assert_eq!(p.x, 3);
    assert_eq!(p.y, -4);
    assert_eq!(Point2::repeat(7u8), Point2::new(7u8, 7u8));
    let z = Point2::new(1, 2).zip(Point2::new('a', 'b'));
    assert_eq!(z, Point2::new((1, 'a'), (2, 'b')));
    assert_eq!(Point2::new(2, 5).map(|v: i32| v * 10), Point2::new(20, 50));
    assert_eq!(Point2::new(-3i32, 4).abs(), Point2::new(3, 4));
}

#[test]
fn indexer_row_major() {
    let ix = Indexer::new(Point2::new(3, 2));
    assert_eq!(ix.to_index(Point2::new(2, 1)), 5);
    assert_eq!(ix.to_index(Point2::new(0, 0)), 0);
    assert_eq!(ix.index_to_pos(5), Point2::new(2, 1));
    assert_eq!(Indexer::index_to_pos_assoc(Point2::new(4, 4), 6), Point2::new(2, 1));
    assert_eq!(Indexer::to_index_assoc(Point2::new(4, 4), Point2::new(2, 1)), 6);
}

#[test]
fn container_new_and_iter() {
    let mut c: Container2d<Tile> = Container2d::new(Point2::new(2, 3));
    assert_eq!(*c.size(), Point2::new(2, 3));
    let cells = c.iter();
    assert_eq!(cells.len(), 6);
    assert!(cells.iter().all(|(_, t)| t.is_none()));
    assert_eq!(cells[3].0, Point2::new(1, 1));
    c.set(Point2::new(1, 2), Tile::new(0));
    assert_eq!(c.get(Point2::new(1, 2)), Tile(1));
    assert_eq!(c.iter()[5].1, Tile(1));
}

#[test]
fn container_empty() {
    let c: Container2d<Tile> = Container2d::new(Point2::new(0, 5));
    assert!(c.iter().is_empty());
}

#[test]
fn tile_ids() {
    assert!(Tile::none().is_none());
    assert_eq!(Tile::none().id(), 0);
    let t = Tile::new(4);
    assert!(!t.is_none());
    assert_eq!(t.id(), 5);
}

#[test]
fn scene_grows_toward_negative() {
    let mut s = Scene::new(Point2::new(2, 2), Point2::new(0, 0));
    s.set_tile(Point2::new(0, 0), Tile::new(1));
    s.set_tile(Point2::new(-1, 3), Tile::new(4));
    assert_eq!(s.tile(Point2::new(-1, 3)), Tile(5));
    assert_eq!(s.tile(Point2::new(0, 0)), Tile(2));
    assert!(s.tile(Point2::new(1, 1)).is_none());
    assert_eq!(s.to_local(Point2::new(-1, 0)), Point2::new(0, 0));
    let all = s.iter();
    assert_eq!(all.len(), 12);
    assert_eq!(all[0].0, Point2::new(-1, 0));
    assert_eq!(all.iter().filter(|(_, t)| !t.is_none()).count(), 2);
}

#[test]
fn scene_extend_inside_is_noop() {
    let mut s = Scene::new(Point2::new(3, 3), Point2::new(1, 1));
    s.extend_to_contain(Point2::new(1, 1));
    assert_eq!(s.iter().len(), 9);
    assert_eq!(s.iter()[0].0, Point2::new(-1, -1));
}

#[test]
fn scene_grows_toward_positive() {
    let mut s = Scene::new(Point2::new(1, 1), Point2::new(0, 0));
    s.set_tile(Point2::new(0, 0), Tile::new(2));
    s.extend_to_contain(Point2::new(3, 1));
    assert_eq!(s.iter().len(), 8);
    assert_eq!(s.tile(Point2::new(0, 0)), Tile(3));
    assert!(s.tile(Point2::new(3, 1)).is_none());
}

#[test]
fn image_rows() {
    let img = Image::from_rgba(vec![0u8; 2 * 3 * 4], Point2::new(2, 3));
    assert_eq!(img.bpp(), 4);
    assert_eq!(img.bytes_row(), 8);
    assert_eq!(*img.size(), Point2::new(2, 3));
    assert_eq!(img.data().len(), 24);
}

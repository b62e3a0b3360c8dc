use tile_editor::fixed::{UNIT, add_fx, mul_fx};
use tile_editor::point::Point2;
use tile_editor::scene::TextureId;
use tile_editor::ui::{ElementId, Ui, UiAnimatableId, UiElement, UiElementType};

fn fx(v: f64) -> i64 {
    (v * UNIT as f64).round() as i64
}

fn element(kind: UiElementType, x: f64, y: f64, w: f64, h: f64) -> UiElement {
    UiElement {
        kind,
        pos: Point2::new(fx(x), fx(y)),
        size: Point2::new(fx(w), fx(h)),
        texture: TextureId(0),
    }
}

#[test]
fn fixed_point_arithmetic() {
    assert_eq!(mul_fx(fx(0.5), fx(0.5)), fx(0.25));
    assert_eq!(mul_fx(-fx(1.5), fx(2.0)), -fx(3.0));
    assert_eq!(mul_fx(i64::MAX, i64::MAX), i64::MAX);
    assert_eq!(add_fx(i64::MAX, 1), i64::MAX);
    assert_eq!(add_fx(fx(0.2), fx(0.3)), fx(0.5));
}

#[test]
fn element_id_paths() {
    let a = ElementId::new(0).push(2).push(1);
    let mut b = ElementId::new(0);
    b.set_tail(2);
    b.set_tail(1);
    assert!(a == b);
    assert_eq!(a.len(), 3);
    assert_eq!(a.index(2), 1);
    assert!(ElementId::new(0).push(1) != ElementId::new(1));
}

#[test]
fn click_hits_interactive_node() {
    let mut ui = Ui::new();
    let id = ui.push(element(UiElementType::Button, 0.2, 0.2, 0.3, 0.3));
    let hit = ui.click(Point2::new(fx(0.3), fx(0.3)));
    assert!(hit.unwrap().element_id == id);
    assert!(ui.click(Point2::new(fx(0.6), fx(0.6))).is_none());
    assert!(ui.click(Point2::new(fx(0.5), fx(0.5))).is_some());
    assert!(ui.click(Point2::new(fx(0.2), fx(0.2))).is_some());
}

#[test]
fn click_skips_panel_but_finds_its_child() {
    let mut ui = Ui::new();
    let panel = ui.push(element(UiElementType::Panel, 0.0, 0.0, 1.0, 1.0));
    let button = ui.push_child(&panel, element(UiElementType::Button, 0.25, 0.25, 0.5, 0.5));
    assert!(button == ElementId::new(0).push(0));
    let hit = ui.click(Point2::new(fx(0.5), fx(0.5))).unwrap();
    assert!(hit.element_id == button);
    assert!(ui.click(Point2::new(fx(0.1), fx(0.1))).is_none());
}

#[test]
fn click_stops_at_first_match() {
    let mut ui = Ui::new();
    let outer = ui.push(element(UiElementType::Button, 0.0, 0.0, 1.0, 1.0));
    ui.push_child(&outer, element(UiElementType::Button, 0.0, 0.0, 1.0, 1.0));
    ui.push(element(UiElementType::Button, 0.0, 0.0, 1.0, 1.0));
    let hit = ui.click(Point2::new(fx(0.5), fx(0.5))).unwrap();
    assert!(hit.element_id == outer);
}

#[test]
fn layout_follows_parent_after_set() {
    let mut ui = Ui::new();
    let root = ui.push(element(UiElementType::Panel, 0.1, 0.1, 0.5, 0.5));
    let child = ui.push_child(&root, element(UiElementType::Panel, 0.5, 0.5, 0.5, 0.5));
    let grandchild = ui.push_child(&child, element(UiElementType::Button, 0.0, 0.0, 0.5, 1.0));
    let c = *ui.get(&child).element();
    assert_eq!(c.global_pos, Point2::new(fx(0.35), fx(0.35)));
    assert_eq!(c.global_size, Point2::new(fx(0.25), fx(0.25)));
    ui.set(&root, UiAnimatableId::ScaleX, fx(1.0));
    let r = *ui.get(&root).element();
    assert_eq!(r.global_size, Point2::new(fx(1.0), fx(0.5)));
    let c = *ui.get(&child).element();
    assert_eq!(c.global_pos, Point2::new(fx(0.6), fx(0.35)));
    assert_eq!(c.global_size, Point2::new(fx(0.5), fx(0.25)));
    let g = *ui.get(&grandchild).element();
    assert_eq!(g.global_pos, Point2::new(fx(0.6), fx(0.35)));
    assert_eq!(g.global_size, Point2::new(fx(0.25), fx(0.25)));
    ui.set(&child, UiAnimatableId::PositionY, 0);
    let c = *ui.get(&child).element();
    assert_eq!(c.global_pos, Point2::new(fx(0.6), fx(0.1)));
    assert_eq!(c.inner.pos, Point2::new(fx(0.5), 0));
    let r2 = *ui.get(&root).element();
    assert_eq!(r2.global_pos, r.global_pos);
    assert_eq!(r2.global_size, r.global_size);
}

#[test]
fn draw_order_is_preorder() {
    let mut ui = Ui::new();
    let a = ui.push(element(UiElementType::Panel, 0.0, 0.0, 1.0, 1.0));
    ui.push(element(UiElementType::Panel, 0.5, 0.0, 1.0, 1.0));
    let a0 = ui.push_child(&a, element(UiElementType::Panel, 0.1, 0.0, 1.0, 1.0));
    ui.push_child(&a0, element(UiElementType::Panel, 0.2, 0.0, 1.0, 1.0));
    ui.push_child(&a, element(UiElementType::Panel, 0.3, 0.0, 1.0, 1.0));
    let xs: Vec<i64> = ui.draw_order().iter().map(|e| e.inner.pos.x).collect();
    assert_eq!(xs, vec![0, fx(0.1), fx(0.2), fx(0.3), fx(0.5)]);
}

#[test]
fn contains_checks_paths() {
    let mut ui = Ui::new();
    let a = ui.push(element(UiElementType::Panel, 0.0, 0.0, 1.0, 1.0));
    let b = ui.push_child(&a, element(UiElementType::Panel, 0.0, 0.0, 1.0, 1.0));
    assert!(ui.contains(&a));
    assert!(ui.contains(&b));
    assert!(!ui.contains(&b.push(0)));
    assert!(!ui.contains(&ElementId::new(1)));
    assert_eq!(ui.get(&a).child_count(), 1);
    assert_eq!(ui.get(&b).texture(), TextureId(0));
}

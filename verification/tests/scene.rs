use openlcd::layout::{LogicalPosition, LogicalRect};
use openlcd::theme::layer::{BackgroundLayer, ImageLayer, Layer, TextLayer};
use openlcd::theme::scene::Scene;

fn position(x: f32, y: f32) -> LogicalPosition {
    LogicalPosition::new(x.to_bits(), y.to_bits())
}

fn text(label: &str) -> TextLayer {
    TextLayer::new(0, label, position(0.0, 0.0), 20.0f32.to_bits(), [255, 255, 255, 255])
}

#[test]
fn creates_incremental_layer_ids() {
    let mut scene = Scene::new("test");

    let background = scene.add_background([0, 0, 0, 255]);

    let text = scene.add_text(TextLayer::new(
        0,
        "CPU",
        position(100.0, 200.0),
        48.0f32.to_bits(),
        [255, 255, 255, 255],
    ));

    assert_eq!(background, 1);
    assert_eq!(text, 2);
}

#[test]
fn removes_layer() {
    let mut scene = Scene::new("test");

    let id = scene.add_background([0, 0, 0, 255]);

    assert!(scene.remove_layer(id));

    assert!(scene.layers.is_empty());
}

#[test]
fn rebuilds_next_layer_id() {
    let mut scene = Scene::new("test");

    scene.layers.push(Layer::Background(BackgroundLayer::new(10, [0, 0, 0, 255])));

    scene.rebuild_layer_ids();

    assert_eq!(scene.next_layer_id(), 11,);
}

#[test]
fn moves_text_layer_up_and_down() {
    let mut scene = Scene::new("test");

    let background = scene.add_background([0, 0, 0, 255]);

    let first = scene.add_text(text("first"));

    let second = scene.add_text(text("second"));

    assert_eq!(scene.layers[1].id(), first,);

    assert!(scene.move_layer_up(first));

    assert_eq!(scene.layers[2].id(), first,);

    assert!(scene.move_layer_down(first));

    assert_eq!(scene.layers[1].id(), first,);

    assert!(!scene.move_layer_down(first));

    assert!(!scene.move_layer_up(background));

    assert_eq!(scene.layers[2].id(), second,);
}

#[test]
fn keeps_given_identifiers_and_moves_the_counter_past_them() {
    let mut scene = Scene::new("test");
    let kept = scene.add_text(TextLayer::new(7, "seven", position(0.0, 0.0), 20.0f32.to_bits(), [0; 4]));
    assert_eq!(kept, 7);
    let next = scene.add_background([1, 2, 3, 4]);
    assert_eq!(next, 8);
    let image = scene.add_image(ImageLayer::new(0, "/tmp/a.png", LogicalRect::new(0, 0, 0, 0)));
    assert_eq!(image, 9);
}

#[test]
fn move_down_undoes_move_up() {
    let mut scene = Scene::new("test");
    scene.add_background([0, 0, 0, 255]);
    let a = scene.add_text(text("a"));
    let b = scene.add_text(text("b"));
    let before: Vec<u64> = scene.layers.iter().map(|layer| layer.id()).collect();
    assert!(scene.move_layer_up(a));
    assert!(scene.move_layer_down(a));
    let after: Vec<u64> = scene.layers.iter().map(|layer| layer.id()).collect();
    assert_eq!(before, after);
    assert!(scene.move_layer_down(b));
    assert!(scene.move_layer_up(b));
    let again: Vec<u64> = scene.layers.iter().map(|layer| layer.id()).collect();
    assert_eq!(before, again);
}

#[test]
fn backgrounds_and_missing_layers_do_not_move() {
    let mut scene = Scene::new("test");
    let a = scene.add_text(text("a"));
    let background = scene.add_background([0, 0, 0, 255]);
    assert!(!scene.move_layer_down(background));
    assert!(!scene.move_layer_up(background));
    assert!(!scene.move_layer_up(99));
    assert!(!scene.move_layer_down(a));
    assert!(scene.is_background(background));
    assert!(!scene.is_background(a));
}

#[test]
fn counter_stays_fresh_after_removal() {
    let mut scene = Scene::new("test");
    let a = scene.add_background([0; 4]);
    let b = scene.add_background([0; 4]);
    assert!(scene.remove_layer(b));
    assert!(!scene.remove_layer(b));
    assert!(scene.layer(b).is_none());
    assert!(scene.layer(a).is_some());
    let c = scene.add_background([0; 4]);
    assert_eq!(c, 3);
}

#[test]
fn layer_lookup_and_visibility() {
    let mut scene = Scene::new("test");
    let id = scene.add_text(text("label"));
    assert!(scene.layer(id).unwrap().visible());
    scene.layer_mut(id).unwrap().set_visible(false);
    assert!(!scene.layer(id).unwrap().visible());
    assert!(scene.layer_mut(id + 1).is_none());
}

#[test]
fn rebuild_of_empty_scene_starts_at_one() {
    let mut scene = Scene::from_parts("empty".to_owned(), Vec::new());
    scene.rebuild_layer_ids();
    assert_eq!(scene.next_layer_id(), 1);
}

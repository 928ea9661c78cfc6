use openlcd::layout::{LogicalPosition, LogicalRect};
use openlcd::theme::document::{
    asset_file_name_string, join_path_string, managed_source_string, path_is_relative, AssetMode,
    ThemeDocument, ThemeError, CURRENT_THEME_FORMAT_VERSION,
};
use openlcd::theme::layer::{ImageLayer, Layer, TextLayer};
use openlcd::theme::scene::Scene;

fn position(x: f32, y: f32) -> LogicalPosition {
    LogicalPosition::new(x.to_bits(), y.to_bits())
}

fn read_back(document: &ThemeDocument) -> ThemeDocument {
    ThemeDocument {
        format_version: document.format_version,
        name: document.name.clone(),
        asset_mode: document.asset_mode,
        scene: Scene::from_parts(document.scene.name.clone(), document.scene.layers.clone()),
    }
}

#[test]
fn restores_layer_id_sequence_after_load() {
    let mut scene = Scene::new("Test");

    let first = scene.add_background([0, 0, 0, 255]);

    let second = scene.add_text(TextLayer::new(0, "A", position(0.0, 0.0), 20.0f32.to_bits(), [255, 255, 255, 255]));

    assert_eq!(first, 1);
    assert_eq!(second, 2);

    let theme = ThemeDocument::new("Test", scene);

    let mut loaded = read_back(&theme).prepare_loaded(".").unwrap();

    let third = loaded.scene.add_text(TextLayer::new(0, "B", position(0.0, 0.0), 20.0f32.to_bits(), [255, 255, 255, 255]));

    assert_eq!(third, 3);
}

#[test]
fn managed_round_trip_points_images_into_the_theme_directory() {
    let mut scene = Scene::new("Managed");
    scene.add_background([0, 0, 0, 255]);
    let image_id = scene.add_image(ImageLayer::new(0, "/tmp/external-test.png", LogicalRect::new(0, 0, 0, 0)));
    let theme = ThemeDocument::new("Managed Test", scene);
    let stored = theme.to_managed();
    assert_eq!(stored.asset_mode, AssetMode::Managed);
    let Layer::Image(image) = &stored.scene.layers[1] else { panic!("expected ImageLayer") };
    assert_eq!(image.source, format!("assets/image-layer-{image_id}.png"));
    let loaded = read_back(&stored).prepare_loaded("/themes/demo").unwrap();
    let Layer::Image(image) = &loaded.scene.layers[1] else { panic!("expected ImageLayer") };
    assert_eq!(image.source, format!("/themes/demo/assets/image-layer-{image_id}.png"));
    assert!(matches!(loaded.scene.layers[0], Layer::Background(_)));
}

#[test]
fn external_themes_keep_their_paths() {
    let mut scene = Scene::new("External");
    scene.add_image(ImageLayer::new(0, "relative.png", LogicalRect::new(0, 0, 0, 0)));
    let theme = ThemeDocument::new("External", scene);
    let loaded = read_back(&theme).prepare_loaded("/elsewhere").unwrap();
    let Layer::Image(image) = &loaded.scene.layers[0] else { panic!("expected ImageLayer") };
    assert_eq!(image.source, "relative.png");
}

#[test]
fn refuses_unknown_format_versions() {
    let mut theme = ThemeDocument::new("Future", Scene::new("Future"));
    theme.format_version = CURRENT_THEME_FORMAT_VERSION + 1;
    match theme.prepare_loaded(".") {
        Err(ThemeError::UnsupportedVersion { expected, actual }) => {
            assert_eq!(expected, 1);
            assert_eq!(actual, 2);
        }
        _ => panic!("expected UnsupportedVersion"),
    }
}

#[test]
fn asset_names_follow_the_extension_rule() {
    assert_eq!(asset_file_name_string(4, "/a/b/photo.jpeg"), "image-layer-4.jpeg");
    assert_eq!(asset_file_name_string(5, "/a/b.d/noext"), "image-layer-5.img");
    assert_eq!(asset_file_name_string(6, "/a/.hidden"), "image-layer-6.img");
    assert_eq!(asset_file_name_string(7, "archive.tar.gz"), "image-layer-7.gz");
    assert_eq!(managed_source_string(8, "x.png"), "assets/image-layer-8.png");
}

#[test]
fn joins_and_classifies_paths() {
    assert_eq!(join_path_string("/themes", "assets/a.png"), "/themes/assets/a.png");
    assert_eq!(join_path_string("/themes/", "assets/a.png"), "/themes/assets/a.png");
    assert_eq!(join_path_string("", "assets/a.png"), "assets/a.png");
    assert!(path_is_relative("assets/a.png"));
    assert!(path_is_relative(""));
    assert!(!path_is_relative("/abs.png"));
}

#[test]
fn wrong_version_is_refused_whatever_the_identifiers() {
    let mut layers = Vec::new();
    layers.push(Layer::Background(openlcd::theme::layer::BackgroundLayer::new(u64::MAX, [0; 4])));
    let theme = ThemeDocument {
        format_version: 7,
        name: "Old".to_owned(),
        asset_mode: AssetMode::External,
        scene: Scene::from_parts("Old".to_owned(), layers),
    };
    assert!(matches!(
        theme.prepare_loaded("."),
        Err(ThemeError::UnsupportedVersion { expected: 1, actual: 7 })
    ));
}

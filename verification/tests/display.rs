use openlcd::display::{classify_display, shape_label, DisplayShape, PreviewProfile};
use openlcd::frame::FrameSize;

#[test]
fn classifies_kmex_as_portrait_ultrawide() {
    let shape = classify_display(FrameSize::new(462, 1920));

    assert_eq!(shape, DisplayShape::PortraitUltrawide,);
}

#[test]
fn classifies_square_cooler_display() {
    let shape = classify_display(FrameSize::new(480, 480));

    assert_eq!(shape, DisplayShape::Square,);
}

#[test]
fn classifies_landscape_display() {
    let shape = classify_display(FrameSize::new(800, 480));

    assert_eq!(shape, DisplayShape::Landscape,);
}

#[test]
fn classifies_ultrawide_landscape_display() {
    let shape = classify_display(FrameSize::new(1920, 462));

    assert_eq!(shape, DisplayShape::LandscapeUltrawide,);
}

#[test]
fn classifies_portrait_display() {
    assert_eq!(classify_display(FrameSize::new(480, 800)), DisplayShape::Portrait);
}

#[test]
fn classifies_empty_sizes_as_square() {
    assert_eq!(classify_display(FrameSize::new(0, 480)), DisplayShape::Square);
    assert_eq!(classify_display(FrameSize::new(480, 0)), DisplayShape::Square);
}

#[test]
fn near_square_sizes_are_square() {
    assert_eq!(classify_display(FrameSize::new(500, 480)), DisplayShape::Square);
    assert_eq!(classify_display(FrameSize::new(480, 500)), DisplayShape::Square);
}

#[test]
fn shape_identifiers_and_labels() {
    assert_eq!(DisplayShape::PortraitUltrawide.identifier(), "portrait-ultrawide");
    assert_eq!(DisplayShape::Square.identifier(), "square");
    assert_eq!(shape_label(DisplayShape::LandscapeUltrawide), "Paisagem ultrawide");
    assert_eq!(shape_label(DisplayShape::Square), "Quadrado");
}

#[test]
fn preview_profiles_have_sizes_and_labels() {
    assert_eq!(PreviewProfile::Kmex.size(), FrameSize::new(462, 1920));
    assert_eq!(PreviewProfile::Kmex.label(), "K-MEX 462 × 1920");
    let capabilities = PreviewProfile::Kmex.capabilities();
    assert_eq!(capabilities.native_size, FrameSize::new(462, 1920));
}

#[test]
fn ratio_boundaries_follow_the_thresholds() {
    assert_eq!(classify_display(FrameSize::new(9, 10)), DisplayShape::Square);
    assert_eq!(classify_display(FrameSize::new(11, 10)), DisplayShape::Square);
    assert_eq!(classify_display(FrameSize::new(89, 100)), DisplayShape::Portrait);
    assert_eq!(classify_display(FrameSize::new(111, 100)), DisplayShape::Landscape);
    assert_eq!(classify_display(FrameSize::new(1, 2)), DisplayShape::Portrait);
    assert_eq!(classify_display(FrameSize::new(2, 1)), DisplayShape::Landscape);
    assert_eq!(classify_display(FrameSize::new(100, 201)), DisplayShape::PortraitUltrawide);
    assert_eq!(classify_display(FrameSize::new(201, 100)), DisplayShape::LandscapeUltrawide);
}

#[test]
fn compares_the_rounded_single_precision_ratio() {
    assert_eq!(classify_display(FrameSize::new(18454938, 16777216)), DisplayShape::Square);
    assert_eq!(classify_display(FrameSize::new(18454940, 16777216)), DisplayShape::Landscape);
    assert_eq!(classify_display(FrameSize::new(u32::MAX, u32::MAX)), DisplayShape::Square);
    assert_eq!(classify_display(FrameSize::new(u32::MAX, 1)), DisplayShape::LandscapeUltrawide);
}

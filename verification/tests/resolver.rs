use openlcd::layout::LogicalPosition;
use openlcd::resolver::{resolve_binding, SceneResolver};
use openlcd::theme::binding::{DataBinding, TextBinding};
use openlcd::theme::layer::{Layer, TextLayer};
use openlcd::theme::scene::Scene;

fn position(x: f32, y: f32) -> LogicalPosition {
    LogicalPosition::new(x.to_bits(), y.to_bits())
}

#[test]
fn resolves_cpu_usage() {
    let mut scene = Scene::new("test");

    scene.add_text(
        TextLayer::new(0, "CPU --%", position(100.0, 100.0), 40.0f32.to_bits(), [255, 255, 255, 255])
            .with_binding(TextBinding::new(DataBinding::CpuUsage).with_prefix("CPU ").with_suffix("%")),
    );

    let cpu_usage: Option<f64> = Some(42.4);
    let precision = match &scene.layers[0] {
        Layer::Text(text) => text.binding.as_ref().unwrap().precision as usize,
        _ => panic!("expected TextLayer"),
    };
    let values = vec![cpu_usage.map(|value| format!("{value:.precision$}"))];

    let resolved = SceneResolver::new().resolve(&scene, &values);

    let Layer::Text(text) = &resolved.layers[0] else {
        panic!("expected TextLayer");
    };

    assert_eq!(text.text, "CPU 42%",);
}

#[test]
fn uses_fallback_when_data_is_missing() {
    let mut scene = Scene::new("test");

    scene.add_text(
        TextLayer::new(0, "CPU unavailable", position(0.0, 0.0), 20.0f32.to_bits(), [255, 255, 255, 255])
            .with_binding(TextBinding::new(DataBinding::CpuUsage)),
    );

    let resolved = SceneResolver::new().resolve(&scene, &vec![None]);

    let Layer::Text(text) = &resolved.layers[0] else {
        panic!("expected TextLayer");
    };

    assert_eq!(text.text, "CPU unavailable",);
}

#[test]
fn respects_decimal_precision() {
    let mut scene = Scene::new("test");

    scene.add_text(
        TextLayer::new(0, "--", position(0.0, 0.0), 20.0f32.to_bits(), [255, 255, 255, 255]).with_binding(
            TextBinding::new(DataBinding::CpuTemperature)
                .with_prefix("CPU ")
                .with_suffix(" °C")
                .with_precision(1),
        ),
    );

    let cpu_temperature: Option<f64> = Some(54.37);
    let precision = match &scene.layers[0] {
        Layer::Text(text) => text.binding.as_ref().unwrap().precision as usize,
        _ => panic!("expected TextLayer"),
    };
    let values = vec![cpu_temperature.map(|value| format!("{value:.precision$}"))];

    let resolved = SceneResolver::new().resolve(&scene, &values);

    let Layer::Text(text) = &resolved.layers[0] else {
        panic!("expected TextLayer");
    };

    assert_eq!(text.text, "CPU 54.4 °C",);
}

#[test]
fn binding_wraps_value_in_prefix_and_suffix() {
    let binding = TextBinding::new(DataBinding::Clock).with_prefix("[").with_suffix("]");
    assert_eq!(resolve_binding(&binding, Some("12:00:00")), Some("[12:00:00]".to_owned()));
    assert_eq!(resolve_binding(&binding, None), None);
}

#[test]
fn unbound_layers_and_missing_values_stay_unchanged() {
    let mut scene = Scene::new("test");
    scene.add_background([0, 0, 0, 255]);
    scene.add_text(TextLayer::new(0, "static", position(0.0, 0.0), 20.0f32.to_bits(), [0; 4]));
    scene.add_text(
        TextLayer::new(0, "fallback", position(0.0, 0.0), 20.0f32.to_bits(), [0; 4])
            .with_binding(TextBinding::new(DataBinding::Fps)),
    );
    let values = vec![Some("x".to_owned()), Some("y".to_owned())];
    let resolved = SceneResolver::new().resolve(&scene, &values);
    assert_eq!(resolved.layers.len(), 3);
    let Layer::Text(first) = &resolved.layers[1] else { panic!("expected TextLayer") };
    assert_eq!(first.text, "static");
    let Layer::Text(second) = &resolved.layers[2] else { panic!("expected TextLayer") };
    assert_eq!(second.text, "fallback");
    assert_eq!(resolved.name, "test");
}

#[test]
fn binding_labels_and_defaults() {
    assert_eq!(DataBinding::CpuUsage.label(), "CPU Usage");
    assert_eq!(DataBinding::WifiSsid.label(), "Wi-Fi SSID");
    assert_eq!(DataBinding::ALL.len(), 18);
    let binding = TextBinding::new(DataBinding::Date);
    assert_eq!(binding.precision, 0);
    assert_eq!(binding.prefix, "");
    assert_eq!(binding.suffix, "");
}

#[test]
fn binding_labels_are_distinct_and_non_empty() {
    let labels: Vec<&str> = DataBinding::ALL.iter().map(|binding| binding.label()).collect();
    assert_eq!(labels.len(), 18);
    for (i, a) in labels.iter().enumerate() {
        assert!(!a.is_empty());
        for b in &labels[i + 1..] {
            assert_ne!(a, b);
        }
    }
    assert_eq!(DataBinding::MemoryFrequency.label(), "Memory Frequency");
    assert_eq!(DataBinding::Fps.label(), "FPS");
}

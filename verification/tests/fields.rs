//! Form fields and small rules of the operations.

use std::collections::HashSet;

use ffkit::ops::fields::{BuildContext, Field, FieldKind, FieldValue, SelectOption};
use ffkit::ops::image_convert::quality_args;
use ffkit::ops::{find_by_id, operations};
use ffkit::time::{format_timestamp, Duration};

fn select(values: &[&str]) -> Field {
    Field {
        id: "codec",
        label: "Codec".into(),
        kind: FieldKind::Select {
            options: values.iter().map(|v| SelectOption::available(v)).collect(),
            selected: 0,
        },
        explanation: String::new(),
    }
}

#[test]
fn select_cycles_and_wraps() {
    let mut field = select(&["a", "b", "c"]);
    field.adjust_forward();
    field.adjust_forward();
    assert_eq!(field.value(), FieldValue::Text("c".into()));
    field.adjust_forward();
    assert_eq!(field.value(), FieldValue::Text("a".into()));
    field.adjust_backward();
    assert_eq!(field.value(), FieldValue::Text("c".into()));
}

#[test]
fn select_skips_disabled_options() {
    let mut field = select(&["a", "b", "c"]);
    if let FieldKind::Select { options, .. } = &mut field.kind {
        options[1].enabled = false;
    }
    field.adjust_forward();
    assert_eq!(field.value(), FieldValue::Text("c".into()));
}

#[test]
fn select_stuck_when_all_disabled() {
    let mut field = select(&["a"]);
    if let FieldKind::Select { options, .. } = &mut field.kind {
        options[0].enabled = false;
    }
    field.adjust_forward();
    assert_eq!(field.value(), FieldValue::Text("a".into()));
}

#[test]
fn slider_clamps_to_range() {
    let mut field = Field {
        id: "crf",
        label: "CRF".into(),
        kind: FieldKind::Slider {
            min: 0,
            max: 51,
            value: 23,
            step: 1,
            landmarks: Vec::new(),
            caption: None,
        },
        explanation: String::new(),
    };
    for _ in 0..100 {
        field.adjust_forward();
    }
    assert_eq!(field.value(), FieldValue::Int(51));
    for _ in 0..100 {
        field.adjust_backward();
    }
    assert_eq!(field.value(), FieldValue::Int(0));
}

#[test]
fn toggle_flips_between_two() {
    let mut field = Field {
        id: "mode",
        label: "Mode".into(),
        kind: FieldKind::Toggle {
            options: ["Fast".into(), "Accurate".into()],
            selected: 0,
        },
        explanation: String::new(),
    };
    field.adjust_forward();
    assert_eq!(field.value(), FieldValue::Toggle(1));
    field.adjust_backward();
    assert_eq!(field.value(), FieldValue::Toggle(0));
}

#[test]
fn context_getters_fall_back_cleanly() {
    let ctx = BuildContext {
        inputs: &[],
        output: None,
        probe: None,
        input_probes: Vec::new(),
        clips: Vec::new(),
        caps: None,
        fields: Vec::new(),
        temp_dir: "/tmp",
    };
    assert_eq!(ctx.get_str("missing", "dflt"), "dflt");
    assert_eq!(ctx.get_int("missing", 23), 23);
    assert_eq!(ctx.get_toggle("missing", 1), 1);
}

#[test]
fn jpeg_quality_maps_inverted() {
    // q=100 → best (2), q=1 → worst (31).
    assert_eq!(
        quality_args("jpg", 100),
        Some(("-q:v".to_string(), "2".to_string()))
    );
    assert_eq!(
        quality_args("jpg", 1),
        Some(("-q:v".to_string(), "31".to_string()))
    );
}

#[test]
fn webp_takes_quality_directly_and_png_ignores_it() {
    assert_eq!(
        quality_args("webp", 80),
        Some(("-quality".to_string(), "80".to_string()))
    );
    assert_eq!(quality_args("png", 80), None);
}

#[test]
fn registry_has_all_eleven_operations() {
    assert_eq!(operations().len(), 11);
}

#[test]
fn operation_ids_are_unique_and_non_empty() {
    let mut seen = HashSet::new();
    for op in operations() {
        assert!(!op.id.is_empty(), "operation id must not be empty");
        assert!(!op.name.is_empty(), "operation name must not be empty");
        assert!(
            !op.description.is_empty(),
            "operation description must not be empty"
        );
        assert!(seen.insert(op.id), "duplicate operation id: {}", op.id);
    }
}

#[test]
fn find_by_id_round_trips() {
    for op in operations() {
        assert_eq!(find_by_id(op.id).map(|m| m.id), Some(op.id));
    }
    assert!(find_by_id("no-such-operation").is_none());
}

#[test]
fn timestamps_format_unambiguously() {
    assert_eq!(format_timestamp(Duration::from_secs(90)), "90");
    assert_eq!(format_timestamp(Duration::zero()), "0");
    assert_eq!(format_timestamp(Duration::from_micros(41_234_567)), "41.235");
}

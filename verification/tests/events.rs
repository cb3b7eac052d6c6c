use hidremap::caps::{abs_infos, AxisInfo};
use hidremap::rules::parse_mappings;
use hidremap::translate::{translate_event, translate_events, OutputEvent, RawEvent};

fn info(minimum: i32, maximum: i32) -> AxisInfo {
    AxisInfo {
        value: 0,
        minimum,
        maximum,
        fuzz: 0,
        flat: 0,
        resolution: 1,
    }
}

#[test]
fn inverted_value_is_mirrored_in_source_range() {
    let caps = abs_infos(&vec![(evdev::AbsoluteAxisCode::ABS_X.0, info(0, 255))]);
    let rules = parse_mappings("ABS_X=-ABS_X").expect("must parse");
    let out = translate_event(
        &caps,
        &rules,
        RawEvent::AbsoluteAxis {
            code: evdev::AbsoluteAxisCode::ABS_X.0,
            value: 10,
        },
    );
    assert_eq!(
        out,
        Some(OutputEvent::AbsoluteAxis {
            code: evdev::AbsoluteAxisCode::ABS_X.0,
            value: 245,
        })
    );
}

#[test]
fn unmapped_axis_passes_through_identically() {
    let caps = abs_infos(&vec![(evdev::AbsoluteAxisCode::ABS_Y.0, info(-32768, 32767))]);
    let rules = parse_mappings("").expect("must parse");
    let out = translate_event(
        &caps,
        &rules,
        RawEvent::AbsoluteAxis {
            code: evdev::AbsoluteAxisCode::ABS_Y.0,
            value: 5000,
        },
    );
    assert_eq!(
        out,
        Some(OutputEvent::AbsoluteAxis {
            code: evdev::AbsoluteAxisCode::ABS_Y.0,
            value: 5000,
        })
    );
}

#[test]
fn axis_absent_from_capability_table_is_dropped() {
    let caps = abs_infos(&vec![
        (evdev::AbsoluteAxisCode::ABS_X.0, info(0, 255)),
        (evdev::AbsoluteAxisCode::ABS_Y.0, info(0, 255)),
    ]);
    let rules = parse_mappings("").expect("must parse");
    let out = translate_event(
        &caps,
        &rules,
        RawEvent::AbsoluteAxis {
            code: evdev::AbsoluteAxisCode::ABS_THROTTLE.0,
            value: 42,
        },
    );
    assert_eq!(out, None);
}

#[test]
fn retargeting_emits_under_target_code() {
    let caps = abs_infos(&vec![(evdev::AbsoluteAxisCode::ABS_Z.0, info(0, 1023))]);
    let rules = parse_mappings("ABS_Z=ABS_RX").expect("must parse");
    let out = translate_event(
        &caps,
        &rules,
        RawEvent::AbsoluteAxis {
            code: evdev::AbsoluteAxisCode::ABS_Z.0,
            value: 700,
        },
    );
    assert_eq!(
        out,
        Some(OutputEvent::AbsoluteAxis {
            code: evdev::AbsoluteAxisCode::ABS_RX.0,
            value: 700,
        })
    );
}

#[test]
fn inverting_twice_returns_the_original_value() {
    let caps = abs_infos(&vec![(evdev::AbsoluteAxisCode::ABS_X.0, info(-128, 127))]);
    let rules = parse_mappings("ABS_X=-ABS_X").expect("must parse");
    let first = translate_event(
        &caps,
        &rules,
        RawEvent::AbsoluteAxis {
            code: evdev::AbsoluteAxisCode::ABS_X.0,
            value: 37,
        },
    );
    let mirrored = match first {
        Some(OutputEvent::AbsoluteAxis { code, value }) => RawEvent::AbsoluteAxis { code, value },
        other => panic!("unexpected translation {:?}", other),
    };
    let second = translate_event(&caps, &rules, mirrored);
    assert_eq!(
        second,
        Some(OutputEvent::AbsoluteAxis {
            code: evdev::AbsoluteAxisCode::ABS_X.0,
            value: 37,
        })
    );
}

#[test]
fn key_events_pass_through_unmodified() {
    let caps = abs_infos(&vec![]);
    let rules = parse_mappings("").expect("must parse");
    let out = translate_event(
        &caps,
        &rules,
        RawEvent::Key {
            code: evdev::KeyCode::BTN_SOUTH.0,
            value: 1,
        },
    );
    assert_eq!(
        out,
        Some(OutputEvent::Key {
            code: evdev::KeyCode::BTN_SOUTH.0,
            value: 1,
        })
    );
}

#[test]
fn synchronization_and_unrecognized_events_emit_nothing() {
    let caps = abs_infos(&vec![(evdev::AbsoluteAxisCode::ABS_X.0, info(0, 255))]);
    let rules = parse_mappings("").expect("must parse");
    assert_eq!(translate_event(&caps, &rules, RawEvent::Synchronization), None);
    assert_eq!(translate_event(&caps, &rules, RawEvent::Other), None);
}

#[test]
fn batch_translation_preserves_order() {
    let caps = abs_infos(&vec![
        (evdev::AbsoluteAxisCode::ABS_X.0, info(0, 255)),
        (evdev::AbsoluteAxisCode::ABS_Y.0, info(0, 255)),
    ]);
    let rules = parse_mappings("ABS_X=-ABS_Y").expect("must parse");
    let batch = vec![
        RawEvent::Key {
            code: evdev::KeyCode::BTN_START.0,
            value: 1,
        },
        RawEvent::AbsoluteAxis {
            code: evdev::AbsoluteAxisCode::ABS_X.0,
            value: 55,
        },
        RawEvent::Synchronization,
        RawEvent::AbsoluteAxis {
            code: evdev::AbsoluteAxisCode::ABS_Y.0,
            value: 99,
        },
        RawEvent::Other,
        RawEvent::Key {
            code: evdev::KeyCode::BTN_START.0,
            value: 0,
        },
    ];
    let out = translate_events(&caps, &rules, &batch);
    assert_eq!(
        out,
        vec![
            OutputEvent::Key {
                code: evdev::KeyCode::BTN_START.0,
                value: 1,
            },
            OutputEvent::AbsoluteAxis {
                code: evdev::AbsoluteAxisCode::ABS_Y.0,
                value: 200,
            },
            OutputEvent::AbsoluteAxis {
                code: evdev::AbsoluteAxisCode::ABS_Y.0,
                value: 99,
            },
            OutputEvent::Key {
                code: evdev::KeyCode::BTN_START.0,
                value: 0,
            },
        ]
    );
}

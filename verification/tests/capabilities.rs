use hidremap::caps::{abs_infos, abs_setup, make_virt_caps, AxisInfo};

#[test]
fn absent_axis_gets_the_documented_default() {
    let table = abs_infos(&vec![]);
    let declared = abs_setup(evdev::AbsoluteAxisCode::ABS_RZ.0, &table);
    assert_eq!(
        declared,
        AxisInfo {
            value: 128,
            minimum: 0,
            maximum: 256,
            fuzz: 0,
            flat: 0,
            resolution: 1,
        }
    );
}

#[test]
fn reported_axis_is_copied_with_fuzz_and_flat_zeroed() {
    let reported = AxisInfo {
        value: 17,
        minimum: -500,
        maximum: 500,
        fuzz: 16,
        flat: 128,
        resolution: 3,
    };
    let table = abs_infos(&vec![(evdev::AbsoluteAxisCode::ABS_RX.0, reported)]);
    let declared = abs_setup(evdev::AbsoluteAxisCode::ABS_RX.0, &table);
    assert_eq!(
        declared,
        AxisInfo {
            value: 17,
            minimum: -500,
            maximum: 500,
            fuzz: 0,
            flat: 0,
            resolution: 3,
        }
    );
}

#[test]
fn later_reported_calibration_wins() {
    let first = AxisInfo {
        value: 0,
        minimum: 0,
        maximum: 100,
        fuzz: 0,
        flat: 0,
        resolution: 1,
    };
    let second = AxisInfo {
        value: 0,
        minimum: 0,
        maximum: 200,
        fuzz: 0,
        flat: 0,
        resolution: 1,
    };
    let code = evdev::AbsoluteAxisCode::ABS_X.0;
    let table = abs_infos(&vec![(code, first), (code, second)]);
    assert_eq!(table.len(), 1);
    assert_eq!(table.get(&code).map(|i| i.maximum), Some(200));
}

#[test]
fn virtual_device_declares_fixed_identity_and_buttons() {
    let table = abs_infos(&vec![]);
    let caps = make_virt_caps(&table);
    assert_eq!(caps.name, "Microsoft X-Box 360 pad");
    assert_eq!(caps.bus_type, 0x03);
    assert_eq!(caps.vendor, 0x45e);
    assert_eq!(caps.product, 0x28e);
    assert_eq!(caps.version, 0x101);
    let expected_buttons: Vec<u16> = vec![
        evdev::KeyCode::BTN_SOUTH.0,
        evdev::KeyCode::BTN_EAST.0,
        evdev::KeyCode::BTN_NORTH.0,
        evdev::KeyCode::BTN_WEST.0,
        evdev::KeyCode::BTN_TL.0,
        evdev::KeyCode::BTN_TR.0,
        evdev::KeyCode::BTN_SELECT.0,
        evdev::KeyCode::BTN_START.0,
        evdev::KeyCode::BTN_MODE.0,
        evdev::KeyCode::BTN_THUMBL.0,
        evdev::KeyCode::BTN_THUMBR.0,
    ];
    assert_eq!(caps.buttons, expected_buttons);
}

#[test]
fn virtual_device_mixes_reported_and_default_axes() {
    let reported = AxisInfo {
        value: 3,
        minimum: -100,
        maximum: 100,
        fuzz: 0,
        flat: 0,
        resolution: 2,
    };
    let table = abs_infos(&vec![(evdev::AbsoluteAxisCode::ABS_Y.0, reported)]);
    let caps = make_virt_caps(&table);
    let expected_axes: Vec<u16> = vec![
        evdev::AbsoluteAxisCode::ABS_X.0,
        evdev::AbsoluteAxisCode::ABS_Y.0,
        evdev::AbsoluteAxisCode::ABS_Z.0,
        evdev::AbsoluteAxisCode::ABS_RX.0,
        evdev::AbsoluteAxisCode::ABS_RY.0,
        evdev::AbsoluteAxisCode::ABS_RZ.0,
        evdev::AbsoluteAxisCode::ABS_HAT0X.0,
        evdev::AbsoluteAxisCode::ABS_HAT0Y.0,
    ];
    let declared_codes: Vec<u16> = caps.axes.iter().map(|a| a.0).collect();
    assert_eq!(declared_codes, expected_axes);
    for (code, info) in &caps.axes {
        if *code == evdev::AbsoluteAxisCode::ABS_Y.0 {
            assert_eq!(*info, reported);
        } else {
            assert_eq!(
                *info,
                AxisInfo {
                    value: 128,
                    minimum: 0,
                    maximum: 256,
                    fuzz: 0,
                    flat: 0,
                    resolution: 1,
                }
            );
        }
    }
}

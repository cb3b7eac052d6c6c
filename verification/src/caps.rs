//! The axis capability table built from the physical device's advertised
//! calibrations, and the capability declaration of the synthesized virtual
//! device.

use std::collections::HashMap;
use vstd::prelude::*;

verus! {

broadcast use vstd::std_specs::hash::group_hash_axioms;

/// The calibration of one absolute axis, as the input protocol reports it:
/// current value, range, the noise-filtering parameters fuzz and flat, and
/// resolution.
#[derive(Debug, Clone, Copy, PartialEq, Eq, Structural)]
pub struct AxisInfo {
    pub value: i32,
    pub minimum: i32,
    pub maximum: i32,
    pub fuzz: i32,
    pub flat: i32,
    pub resolution: i32,
}

/// The top of the default range declared for an output axis the physical
/// device does not report.
pub const DEFAULT_AXIS_MAX: i32 = 256;

/// The documented default calibration for an output axis absent from the
/// physical capability table: value at the midpoint of the range
/// `0..=DEFAULT_AXIS_MAX`, no fuzz or flat, resolution 1.
pub open spec fn default_axis_info() -> AxisInfo {
    AxisInfo {
        value: (DEFAULT_AXIS_MAX / 2) as i32,
        minimum: 0,
        maximum: DEFAULT_AXIS_MAX,
        fuzz: 0,
        flat: 0,
        resolution: 1,
    }
}

/// A reported calibration as the capability table snapshots it: value, range
/// and resolution kept, fuzz and flat zeroed.
pub open spec fn snapshot_info(i: AxisInfo) -> AxisInfo {
    AxisInfo {
        value: i.value,
        minimum: i.minimum,
        maximum: i.maximum,
        fuzz: 0,
        flat: 0,
        resolution: i.resolution,
    }
}

/// The capability table the reported (code, calibration) pairs build: each
/// pair's snapshot under its axis code, a later pair for the same code
/// overwriting an earlier one.
pub open spec fn spec_abs_infos(raw: Seq<(u16, AxisInfo)>) -> Map<u16, AxisInfo>
    decreases raw.len(),
{
    if raw.len() == 0 {
        Map::<u16, AxisInfo>::empty()
    } else {
        spec_abs_infos(raw.drop_last()).insert(raw.last().0, snapshot_info(raw.last().1))
    }
}

/// The calibration the virtual device declares for an output axis: the
/// capability table's entry where the axis is present, the documented
/// default where it is not.
pub open spec fn spec_abs_setup(code: u16, table: Map<u16, AxisInfo>) -> AxisInfo {
    if table.contains_key(code) {
        table[code]
    } else {
        default_axis_info()
    }
}

/// The fixed set of absolute axes the virtual device declares: X, Y, Z, RX,
/// RY, RZ and the first hat pair, by their protocol codes.
pub open spec fn output_axes() -> Seq<u16> {
    seq![0u16, 1u16, 2u16, 3u16, 4u16, 5u16, 0x10u16, 0x11u16]
}

/// The fixed gamepad button set the virtual device declares, by protocol
/// code: south/east/north/west, the two shoulder buttons, select, start,
/// mode, and the two stick buttons.
pub open spec fn button_codes() -> Seq<u16> {
    seq![
        0x130u16,
        0x131u16,
        0x133u16,
        0x134u16,
        0x136u16,
        0x137u16,
        0x13au16,
        0x13bu16,
        0x13cu16,
        0x13du16,
        0x13eu16,
    ]
}

/// The capability declaration handed to the virtual output sink: the
/// device's identity, its fixed button set, and one calibration per declared
/// output axis.
#[derive(Debug)]
pub struct VirtDeviceCaps {
    pub name: String,
    pub bus_type: u16,
    pub vendor: u16,
    pub product: u16,
    pub version: u16,
    pub buttons: Vec<u16>,
    pub axes: Vec<(u16, AxisInfo)>,
}

/// Build the capability table from the (code, calibration) pairs the
/// physical device reports. Per axis the reported value, range and
/// resolution are kept and fuzz and flat are zeroed; a later pair for the
/// same code wins.
pub fn abs_infos(raw: &Vec<(u16, AxisInfo)>) -> (r: HashMap<u16, AxisInfo>)
    ensures
        r@ == spec_abs_infos(raw@),
{
    let mut map: HashMap<u16, AxisInfo> = HashMap::new();
    let mut i: usize = 0;
    while i < raw.len()
        invariant
            i <= raw.len(),
            map@ == spec_abs_infos(raw@.subrange(0, i as int)),
        decreases raw.len() - i,
    {
        let (code, info) = raw[i];
        map.insert(
            code,
            AxisInfo {
                value: info.value,
                minimum: info.minimum,
                maximum: info.maximum,
                fuzz: 0,
                flat: 0,
                resolution: info.resolution,
            },
        );
        proof {
            assert(raw@.subrange(0, i + 1).drop_last() =~= raw@.subrange(0, i as int));
            assert(raw@.subrange(0, i + 1).last() == raw@[i as int]);
        }
        i = i + 1;
    }
    proof {
        assert(raw@.subrange(0, raw@.len() as int) =~= raw@);
    }
    map
}

/// The calibration declared for one output axis: the capability table's
/// entry where present, the documented default otherwise.
pub fn abs_setup(code: u16, abs_infos: &HashMap<u16, AxisInfo>) -> (r: AxisInfo)
    ensures
        r == spec_abs_setup(code, abs_infos@),
{
    match abs_infos.get(&code) {
        Some(info) => *info,
        None => AxisInfo {
            value: DEFAULT_AXIS_MAX / 2,
            minimum: 0,
            maximum: DEFAULT_AXIS_MAX,
            fuzz: 0,
            flat: 0,
            resolution: 1,
        },
    }
}

/// For any output axis absent from the physical capability table, the
/// declared calibration is exactly the documented default: value 128, range
/// 0 to 256, no fuzz or flat, resolution 1.
pub proof fn lemma_default_calibration(code: u16, table: Map<u16, AxisInfo>)
    requires
        !table.contains_key(code),
    ensures
        spec_abs_setup(code, table) == (AxisInfo {
            value: 128,
            minimum: 0,
            maximum: 256,
            fuzz: 0,
            flat: 0,
            resolution: 1,
        }),
{
}

/// Build the virtual device's capability declaration from the physical
/// capability table: a fixed identity and button set, and one calibration
/// per declared output axis, taken from the table where present and from
/// the documented default otherwise.
pub fn make_virt_caps(abs_infos: &HashMap<u16, AxisInfo>) -> (r: VirtDeviceCaps)
    ensures
        r.name@ == "Microsoft X-Box 360 pad"@,
        r.bus_type == 0x03u16,
        r.vendor == 0x45eu16,
        r.product == 0x28eu16,
        r.version == 0x101u16,
        r.buttons@ == button_codes(),
        r.axes@.len() == output_axes().len(),
        forall|i: int|
            0 <= i < r.axes@.len() ==> #[trigger] r.axes@[i] == (
            output_axes()[i],
            spec_abs_setup(output_axes()[i], abs_infos@),
            ),
{
    let buttons: Vec<u16> = vec![
        0x130, 0x131, 0x133, 0x134, 0x136, 0x137, 0x13a, 0x13b, 0x13c, 0x13d, 0x13e,
    ];
    proof {
        assert(buttons@ =~= button_codes());
    }
    let axis_list: Vec<u16> = vec![0, 1, 2, 3, 4, 5, 0x10, 0x11];
    proof {
        assert(axis_list@ =~= output_axes());
    }
    let mut axes: Vec<(u16, AxisInfo)> = Vec::new();
    let mut i: usize = 0;
    while i < axis_list.len()
        invariant
            i <= axis_list@.len(),
            axis_list@ == output_axes(),
            axes@.len() == i,
            forall|j: int|
                0 <= j < i ==> #[trigger] axes@[j] == (
                output_axes()[j],
                spec_abs_setup(output_axes()[j], abs_infos@),
                ),
        decreases axis_list@.len() - i,
    {
        let code = axis_list[i];
        let info = abs_setup(code, abs_infos);
        axes.push((code, info));
        i = i + 1;
    }
    VirtDeviceCaps {
        name: "Microsoft X-Box 360 pad".to_owned(),
        bus_type: 0x03,
        vendor: 0x45e,
        product: 0x28e,
        version: 0x101,
        buttons,
        axes,
    }
}

} // verus!

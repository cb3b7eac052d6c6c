//! The per-event translation: classify one polled event, apply the rule set
//! and the capability table, and compute the event (if any) to emit on the
//! virtual device.

use std::collections::HashMap;
use vstd::prelude::*;

use crate::caps::AxisInfo;
use crate::rules::{spec_parse_rules, Mapping, ParseError};

verus! {

broadcast use vstd::std_specs::hash::group_hash_axioms;

/// One event polled from the physical device, reduced to what translation
/// reads.
#[derive(Debug, Clone, Copy, PartialEq, Eq, Structural)]
pub enum RawEvent {
    /// A synchronization marker; never forwarded.
    Synchronization,
    /// A key or button event: the button code and its new state.
    Key { code: u16, value: i32 },
    /// An absolute-axis event: the axis code and the raw value.
    AbsoluteAxis { code: u16, value: i32 },
    /// Any other event kind; observed but never forwarded.
    Other,
}

/// One event emitted to the virtual device.
#[derive(Debug, Clone, Copy, PartialEq, Eq, Structural)]
pub enum OutputEvent {
    /// A button event, passed through unmodified.
    Key { code: u16, value: i32 },
    /// An absolute-axis event, after remapping.
    AbsoluteAxis { code: u16, value: i32 },
}

/// A value mirrored within an axis's declared range.
pub open spec fn spec_invert(minimum: int, maximum: int, value: int) -> int {
    minimum + (maximum - value)
}

/// The mapping entry a rule set gives a source axis: its own entry where one
/// exists, else the identity.
pub open spec fn spec_resolve(rules: Map<u16, Mapping>, code: u16) -> Mapping {
    if rules.contains_key(code) {
        rules[code]
    } else {
        Mapping { to_code: code, invert: false }
    }
}

/// The translation of one polled event. Synchronization markers and
/// unrecognized events yield nothing; a key event passes through unchanged;
/// an absolute-axis event yields nothing when its axis is absent from the
/// capability table, and otherwise carries its value — mirrored within the
/// source axis's range when the resolved mapping inverts — under the
/// mapping's target axis code.
pub open spec fn spec_translate(
    caps: Map<u16, AxisInfo>,
    rules: Map<u16, Mapping>,
    ev: RawEvent,
) -> Option<OutputEvent> {
    match ev {
        RawEvent::Synchronization => None,
        RawEvent::Key { code, value } => Some(OutputEvent::Key { code, value }),
        RawEvent::AbsoluteAxis { code, value } => {
            if !caps.contains_key(code) {
                None
            } else {
                let info = caps[code];
                let m = spec_resolve(rules, code);
                let out = if m.invert {
                    spec_invert(info.minimum as int, info.maximum as int, value as int)
                } else {
                    value as int
                };
                Some(OutputEvent::AbsoluteAxis { code: m.to_code, value: out as i32 })
            }
        },
        RawEvent::Other => None,
    }
}

/// Whether translating the event stays within the machine arithmetic the
/// inversion formula uses.
pub open spec fn translate_fits(
    caps: Map<u16, AxisInfo>,
    rules: Map<u16, Mapping>,
    ev: RawEvent,
) -> bool {
    match ev {
        RawEvent::AbsoluteAxis { code, value } => {
            caps.contains_key(code) && spec_resolve(rules, code).invert ==> {
                let info = caps[code];
                &&& i32::MIN <= info.maximum - value <= i32::MAX
                &&& i32::MIN <= info.minimum + (info.maximum - value) <= i32::MAX
            }
        },
        _ => true,
    }
}

/// The translation of a polled batch: each event's translation, where one
/// exists, in the order the events were observed.
pub open spec fn spec_translate_batch(
    caps: Map<u16, AxisInfo>,
    rules: Map<u16, Mapping>,
    evs: Seq<RawEvent>,
) -> Seq<OutputEvent>
    decreases evs.len(),
{
    if evs.len() == 0 {
        Seq::empty()
    } else {
        spec_translate_batch(caps, rules, evs.drop_last()) + match spec_translate(
            caps,
            rules,
            evs.last(),
        ) {
            Some(e) => seq![e],
            None => Seq::empty(),
        }
    }
}

/// Translate one polled event under the capability table and the rule set.
pub fn translate_event(
    caps: &HashMap<u16, AxisInfo>,
    rules: &HashMap<u16, Mapping>,
    ev: RawEvent,
) -> (r: Option<OutputEvent>)
    requires
        translate_fits(caps@, rules@, ev),
    ensures
        r == spec_translate(caps@, rules@, ev),
        match ev {
            RawEvent::AbsoluteAxis { code, .. } => !caps@.contains_key(code) ==> r is None,
            _ => true,
        },
{
    match ev {
        RawEvent::Synchronization => None,
        RawEvent::Key { code, value } => Some(OutputEvent::Key { code, value }),
        RawEvent::AbsoluteAxis { code, value } => {
            match caps.get(&code) {
                None => None,
                Some(info) => {
                    let m = match rules.get(&code) {
                        Some(m) => *m,
                        None => Mapping::from_abs(code),
                    };
                    let out_value = if m.invert {
                        info.minimum + (info.maximum - value)
                    } else {
                        value
                    };
                    Some(OutputEvent::AbsoluteAxis { code: m.to_code, value: out_value })
                },
            }
        },
        RawEvent::Other => None,
    }
}

/// Translate a polled batch of events in receipt order.
pub fn translate_events(
    caps: &HashMap<u16, AxisInfo>,
    rules: &HashMap<u16, Mapping>,
    evs: &Vec<RawEvent>,
) -> (r: Vec<OutputEvent>)
    requires
        forall|i: int| 0 <= i < evs@.len() ==> translate_fits(caps@, rules@, #[trigger] evs@[i]),
    ensures
        r@ == spec_translate_batch(caps@, rules@, evs@),
{
    let mut out: Vec<OutputEvent> = Vec::new();
    let mut i: usize = 0;
    while i < evs.len()
        invariant
            i <= evs@.len(),
            forall|j: int| 0 <= j < evs@.len() ==> translate_fits(caps@, rules@, #[trigger] evs@[j]),
            out@ == spec_translate_batch(caps@, rules@, evs@.subrange(0, i as int)),
        decreases evs@.len() - i,
    {
        match translate_event(caps, rules, evs[i]) {
            Some(e) => out.push(e),
            None => {},
        }
        proof {
            assert(evs@.subrange(0, i + 1).drop_last() =~= evs@.subrange(0, i as int));
            assert(evs@.subrange(0, i + 1).last() == evs@[i as int]);
        }
        i = i + 1;
    }
    proof {
        assert(evs@.subrange(0, evs@.len() as int) =~= evs@);
    }
    out
}

/// Inversion is an involution: mirroring a value twice within a fixed range
/// returns the original value, and a value within the range stays within it.
pub proof fn lemma_invert_involution(minimum: int, maximum: int, value: int)
    requires
        minimum <= value <= maximum,
    ensures
        spec_invert(minimum, maximum, spec_invert(minimum, maximum, value)) == value,
        minimum <= spec_invert(minimum, maximum, value) <= maximum,
{
}

/// The identity default: the empty rule string parses to the empty rule set,
/// and under the empty rule set every axis present in any capability table
/// maps to itself, uninverted, its value unchanged.
pub proof fn lemma_identity_default(caps: Map<u16, AxisInfo>, code: u16, value: i32)
    requires
        caps.contains_key(code),
    ensures
        spec_parse_rules(Seq::<char>::empty()) == Ok::<Map<u16, Mapping>, ParseError>(
            Map::<u16, Mapping>::empty(),
        ),
        spec_translate(caps, Map::<u16, Mapping>::empty(), RawEvent::AbsoluteAxis { code, value })
            == Some(OutputEvent::AbsoluteAxis { code, value }),
{
}

/// Order preservation: when every event of a batch has a translation, the
/// batch's translation holds exactly one output per input, in the order the
/// inputs were observed.
pub proof fn lemma_order_preservation(
    caps: Map<u16, AxisInfo>,
    rules: Map<u16, Mapping>,
    evs: Seq<RawEvent>,
)
    requires
        forall|i: int|
            0 <= i < evs.len() ==> (#[trigger] spec_translate(caps, rules, evs[i])) is Some,
    ensures
        spec_translate_batch(caps, rules, evs).len() == evs.len(),
        forall|i: int|
            0 <= i < evs.len() ==> #[trigger] spec_translate_batch(caps, rules, evs)[i]
                == spec_translate(caps, rules, evs[i])->0,
    decreases evs.len(),
{
    if evs.len() > 0 {
        lemma_order_preservation(caps, rules, evs.drop_last());
        assert(forall|i: int| 0 <= i < evs.len() - 1 ==> evs.drop_last()[i] == evs[i]);
    }
}

} // verus!

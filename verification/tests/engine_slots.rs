//! Where devices lie in the frames.

use tributary::engine::slots::{
    output_buffer, InputSlots, OutputSlots, Plane, SlotError, Slots, MAX_OUTPUT_CHANNELS,
    MONITOR_CHANNELS, MONITOR_OUT,
};

#[test]
fn allocation_is_first_fit_and_release_reopens_the_gap() {
    let mut slots = InputSlots::default();
    assert_eq!(slots.allocate(None, 2), Ok(0));
    assert_eq!(slots.allocate(Some("dock"), 2), Ok(2));
    assert_eq!(slots.allocate(Some("interface"), 8), Ok(4));
    slots.release(Some("dock"));
    assert_eq!(
        slots.allocate(Some("webcam"), 2),
        Ok(2),
        "the freed gap is reused first-fit"
    );
    assert_eq!(
        slots.allocate(Some("wide"), 4),
        Ok(12),
        "too wide for the gap: appends after the last entry"
    );
}

#[test]
fn a_device_reallocating_keeps_its_slot() {
    let mut slots = InputSlots::default();
    assert_eq!(slots.allocate(Some("dock"), 2), Ok(0));
    assert_eq!(slots.allocate(Some("dock"), 2), Ok(0));
    assert_eq!(slots.devices().len(), 1);
}

#[test]
fn a_device_whose_width_changed_must_be_released_first() {
    let mut slots = InputSlots::default();
    assert_eq!(slots.allocate(Some("umc"), 2), Ok(0));
    assert_eq!(
        slots.allocate(Some("umc"), 18),
        Err(SlotError::WidthChanged { held: 2, wanted: 18 }),
        "a card profile switch widens the device; silently keeping the \
         2-wide slot would leave channels 2..18 resolving to silence \
         while the patchbay drew eighteen jacks"
    );
    slots.release(Some("umc"));
    assert_eq!(slots.allocate(Some("umc"), 18), Ok(0));
    assert_eq!(slots.resolve(Some("umc"), 17), Some(17));
}

#[test]
fn the_frame_exhausts_at_sixty_four_channels() {
    let mut slots = InputSlots::default();
    assert_eq!(slots.allocate(Some("big"), 60), Ok(0));
    assert_eq!(slots.allocate(Some("more"), 8), Err(SlotError::Exhausted { needed: 8 }));
    assert_eq!(slots.allocate(Some("small"), 4), Ok(60), "exact fit still lands");
}

#[test]
fn resolve_maps_device_channels_and_refuses_the_unknown() {
    let mut slots = InputSlots::default();
    slots.allocate(None, 2).unwrap();
    slots.allocate(Some("dock"), 2).unwrap();
    assert_eq!(slots.resolve(None, 1), Some(1));
    assert_eq!(slots.resolve(Some("dock"), 0), Some(2));
    assert_eq!(slots.resolve(Some("dock"), 1), Some(3));
    assert_eq!(slots.resolve(Some("dock"), 2), None, "past the device");
    assert_eq!(slots.resolve(Some("ghost"), 0), None, "unknown device");
}

#[test]
fn single_default_is_the_pre_multi_device_world() {
    let slots = InputSlots::single_default(8);
    assert_eq!(slots.resolve(None, 7), Some(7));
    assert_eq!(slots.resolve(None, 8), None);
    assert_eq!(slots.resolve(Some("x"), 0), None);
}

struct Narrow;

impl Plane for Narrow {
    const WIDTH: usize = 8;
}

#[test]
fn a_plane_exhausts_at_its_own_width_not_the_input_frames() {
    let mut slots = Slots::<Narrow>::default();
    assert_eq!(slots.allocate(Some("a"), 6), Ok(0));
    assert_eq!(slots.allocate(Some("b"), 4), Err(SlotError::Exhausted { needed: 4 }));
    assert_eq!(slots.allocate(Some("b"), 2), Ok(6), "exact fit still lands");
}

#[test]
fn the_monitor_pair_is_reserved_so_no_device_slot_can_land_on_the_mix() {
    let mut plane = OutputSlots::with_monitor();
    assert_eq!(
        plane.allocate(Some("interface"), 8),
        Ok(MONITOR_CHANNELS),
        "the first real device starts after the monitor, never on it"
    );
    for channel in MONITOR_OUT {
        assert!(
            plane
                .devices()
                .iter()
                .all(|(_, offset, channels)| channel < *offset || channel >= offset + channels),
            "no device slot may cover monitor channel {channel}"
        );
    }
}

#[test]
fn the_system_default_output_is_patchable_like_any_other_device() {
    let mut plane = OutputSlots::with_monitor();
    assert_eq!(plane.allocate(None, 8), Ok(MONITOR_CHANNELS));
    assert_eq!(plane.resolve(None, 0), Some(MONITOR_CHANNELS));
    assert_eq!(plane.resolve(None, 7), Some(MONITOR_CHANNELS + 7));
    assert_eq!(plane.resolve(None, 8), None, "past the device");
}

#[test]
fn releasing_undoes_allocating() {
    let mut slots = InputSlots::default();
    slots.allocate(Some("a"), 4).unwrap();
    slots.allocate(Some("b"), 3).unwrap();
    assert_eq!(slots.get(Some("b")), Some((4, 3)));
    assert_eq!(slots.release(Some("b")), Some((4, 3)));
    assert_eq!(slots.get(Some("b")), None);
    assert_eq!(slots.release(Some("b")), None);
    assert_eq!(slots.devices().len(), 1);
}

#[test]
fn an_output_buffer_is_a_silent_plane() {
    let plane = output_buffer(3);
    assert_eq!(plane.len(), 3 * MAX_OUTPUT_CHANNELS);
    assert!(plane.iter().all(|sample| sample.bits == 0));
}

#[test]
fn a_device_that_asks_for_too_much_is_refused() {
    let mut slots = InputSlots::default();
    assert_eq!(slots.allocate(Some("a"), 2), Ok(0));
    let before = slots.clone();
    assert_eq!(
        slots.allocate(Some("b"), 65_535),
        Err(SlotError::Exhausted { needed: 65_535 })
    );
    assert_eq!(slots.get(Some("b")), None);
    assert_eq!(slots, before);
    assert_eq!(slots.allocate(Some("b"), 3), Ok(2));
    assert_eq!(slots.release(Some("b")), Some((2, 3)));
    assert_eq!(slots, before);
    assert_eq!(slots.release(Some("b")), None);
    assert_eq!(slots, before);
}

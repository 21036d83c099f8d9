use vstd::prelude::*;
use crate::classify::COLOR_COUNT;

verus! {

/// Bus address of one color's light sensor, in color order
/// red, green, yellow, blue.
pub open spec fn spec_sensor_address(color: int) -> u8 {
    if color == 0 {
        0x84
    } else if color == 1 {
        0xc4
    } else if color == 2 {
        0x94
    } else {
        0xd4
    }
}

/// Servo command that leaves one color's hand at rest. One unit's servo is
/// mounted inverted, so its rest value is the others' pressed value.
pub open spec fn spec_rest_position(color: int) -> u16 {
    if color == 3 {
        470
    } else {
        260
    }
}

/// Servo command that presses one color's button.
pub open spec fn spec_pressed_position(color: int) -> u16 {
    if color == 3 {
        260
    } else {
        470
    }
}

/// The sensor address to read one color's light from.
pub fn sensor_address(color: usize) -> (address: u8)
    requires
        color < COLOR_COUNT,
    ensures
        address == spec_sensor_address(color as int),
{
    if color == 0 {
        0x84
    } else if color == 1 {
        0xc4
    } else if color == 2 {
        0x94
    } else {
        0xd4
    }
}

/// The servo command that lifts one color's hand off its button.
pub fn rest_position(color: usize) -> (position: u16)
    requires
        color < COLOR_COUNT,
    ensures
        position == spec_rest_position(color as int),
{
    if color == 3 {
        470
    } else {
        260
    }
}

/// The servo command that lowers one color's hand onto its button.
pub fn pressed_position(color: usize) -> (position: u16)
    requires
        color < COLOR_COUNT,
    ensures
        position == spec_pressed_position(color as int),
{
    if color == 3 {
        260
    } else {
        470
    }
}

} // verus!

//! Typed input events and the decoding of raw capture records: the shell
//! hands the engine the plain fields of each fixed-layout wire record, and
//! the engine turns them into typed events or rejects them.

use vstd::prelude::*;

use crate::key::Keycode;
use crate::key::ModSet;

verus! {

/// The server-side identifier of a window.
#[derive(Clone, Copy, Debug, PartialEq, Eq, Structural, Hash)]
pub struct WindowRef {
    pub id: u64,
}

impl WindowRef {
    pub fn new(id: u64) -> (r: WindowRef)
        ensures
            r.id == id,
    {
        WindowRef { id }
    }
}

/// Whether a key or button goes up or down.
#[derive(Clone, Copy, Debug, PartialEq, Eq, Structural)]
pub enum UpOrDown {
    Up,
    Down,
}

/// What moved: a keyboard key or a mouse button.
#[derive(Clone, Copy, Debug, PartialEq, Eq, Structural)]
pub enum Button {
    Key(Keycode),
    MouseButton(u8),
}

/// One physical or synthesized input transition.
#[derive(Clone, Copy, Debug, PartialEq, Eq, Structural)]
pub struct InputEvent {
    pub direction: UpOrDown,
    pub button: Button,
}

/// One decoded capture record: the input transition plus the modifier
/// snapshot the server attached to it.
#[derive(Clone, Copy, Debug, PartialEq, Eq, Structural)]
pub struct RecordedEvent {
    pub state: ModSet,
    pub input: InputEvent,
}

/// A capture record whose shape the engine does not understand; such a
/// record is dropped, never propagated.
#[derive(Clone, Copy, Debug, PartialEq, Eq, Structural)]
pub struct UnknownRecordedEvent;

/// The core protocol code of a key-press record.
pub const KEY_PRESS: u8 = 2;

/// The core protocol code of a key-release record.
pub const KEY_RELEASE: u8 = 3;

/// The core protocol code of a button-press record.
pub const BUTTON_PRESS: u8 = 4;

/// The core protocol code of a button-release record.
pub const BUTTON_RELEASE: u8 = 5;

/// The core protocol code of a window-creation notification.
pub const CREATE_NOTIFY: u8 = 16;

impl RecordedEvent {
    /// What a raw record with type code `code`, detail byte `detail` and
    /// state field `state` decodes to: a key transition for the key codes
    /// (a zero keycode is rejected), a button transition for the button
    /// codes, and an error for every other code.
    pub open spec fn spec_decode(code: u8, detail: u8, state: u16) -> Result<
        RecordedEvent,
        UnknownRecordedEvent,
    > {
        if code == KEY_PRESS || code == KEY_RELEASE {
            if detail != 0 {
                Ok(
                    RecordedEvent {
                        state: ModSet::spec_from_bits(state),
                        input: InputEvent {
                            button: Button::Key(Keycode::spec_from_value(detail)),
                            direction: if code == KEY_PRESS {
                                UpOrDown::Down
                            } else {
                                UpOrDown::Up
                            },
                        },
                    },
                )
            } else {
                Err(UnknownRecordedEvent)
            }
        } else if code == BUTTON_PRESS || code == BUTTON_RELEASE {
            Ok(
                RecordedEvent {
                    state: ModSet::spec_from_bits(state),
                    input: InputEvent {
                        button: Button::MouseButton(detail),
                        direction: if code == BUTTON_PRESS {
                            UpOrDown::Down
                        } else {
                            UpOrDown::Up
                        },
                    },
                },
            )
        } else {
            Err(UnknownRecordedEvent)
        }
    }

    /// Decodes the plain fields of one raw capture record.
    pub fn decode(code: u8, detail: u8, state: u16) -> (r: Result<
        RecordedEvent,
        UnknownRecordedEvent,
    >)
        ensures
            r == RecordedEvent::spec_decode(code, detail, state),
    {
        let direction = if code == KEY_PRESS || code == BUTTON_PRESS {
            UpOrDown::Down
        } else {
            UpOrDown::Up
        };
        if code == KEY_PRESS || code == KEY_RELEASE {
            match Keycode::new(detail) {
                Some(keycode) => Ok(
                    RecordedEvent {
                        state: ModSet::from_bits_truncated(state),
                        input: InputEvent { button: Button::Key(keycode), direction },
                    },
                ),
                None => Err(UnknownRecordedEvent),
            }
        } else if code == BUTTON_PRESS || code == BUTTON_RELEASE {
            Ok(
                RecordedEvent {
                    state: ModSet::from_bits_truncated(state),
                    input: InputEvent { button: Button::MouseButton(detail), direction },
                },
            )
        } else {
            Err(UnknownRecordedEvent)
        }
    }
}

/// A primary-connection event the engine understands.
#[derive(Clone, Copy, Debug, PartialEq, Eq, Structural)]
pub enum Event {
    CreateNotify { window: WindowRef },
}

/// A primary-connection event of a type the engine does not handle.
#[derive(Clone, Copy, Debug, PartialEq, Eq, Structural)]
pub struct UnknownEventType(pub u8);

impl Event {
    /// What a primary-connection event with type code `event_type` on
    /// window `window` decodes to.
    pub open spec fn spec_decode(event_type: u8, window: WindowRef) -> Result<
        Event,
        UnknownEventType,
    > {
        if event_type == CREATE_NOTIFY {
            Ok(Event::CreateNotify { window })
        } else {
            Err(UnknownEventType(event_type))
        }
    }

    /// Decodes the plain fields of one primary-connection event.
    pub fn decode(event_type: u8, window: WindowRef) -> (r: Result<Event, UnknownEventType>)
        ensures
            r == Event::spec_decode(event_type, window),
    {
        if event_type == CREATE_NOTIFY {
            Ok(Event::CreateNotify { window })
        } else {
            Err(UnknownEventType(event_type))
        }
    }
}

} // verus!

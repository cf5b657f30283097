//! The tray menu's commands and what each does to the host.
use super::control::quality;
use crate::config::Position;
use vstd::prelude::*;

verus! {

/// A command chosen in the tray menu.
#[derive(Debug, Clone, Copy, PartialEq, Eq, Structural)]
pub enum TrayAction {
    Disconnect,
    Position(Position),
    Quality(u8),
    Exit,
}

/// The command of a tray menu item: 1 disconnects, 10..=13 place the display left,
/// right, above or below, 20..=22 choose automatic, performance or quality, and 99
/// exits. Other items (settings) are no command.
pub open spec fn menu_action_spec(item: u32) -> Option<TrayAction> {
    if item == 1 {
        Some(TrayAction::Disconnect)
    } else if item == 10 {
        Some(TrayAction::Position(Position::Left))
    } else if item == 11 {
        Some(TrayAction::Position(Position::Right))
    } else if item == 12 {
        Some(TrayAction::Position(Position::Above))
    } else if item == 13 {
        Some(TrayAction::Position(Position::Below))
    } else if 20 <= item <= 22 {
        Some(TrayAction::Quality((item - 20) as u8))
    } else if item == 99 {
        Some(TrayAction::Exit)
    } else {
        None
    }
}

pub fn menu_action(item: u32) -> (r: Option<TrayAction>)
    ensures
        r == menu_action_spec(item),
{
    if item == 1 {
        Some(TrayAction::Disconnect)
    } else if item == 10 {
        Some(TrayAction::Position(Position::Left))
    } else if item == 11 {
        Some(TrayAction::Position(Position::Right))
    } else if item == 12 {
        Some(TrayAction::Position(Position::Above))
    } else if item == 13 {
        Some(TrayAction::Position(Position::Below))
    } else if 20 <= item && item <= 22 {
        Some(TrayAction::Quality((item - 20) as u8))
    } else if item == 99 {
        Some(TrayAction::Exit)
    } else {
        None
    }
}

/// What a tray command does.
#[derive(Debug, Clone, Copy, PartialEq, Eq, Structural)]
pub enum ActionEffect {
    /// End the session explicitly (no reconnect grace).
    EndSession,
    /// Stop the host: during a session this is an error that ends it.
    Quit,
    /// Save and apply the display position.
    Place(Position),
    /// Save and apply whether the bitrate adapts, and the bitrate.
    SetQuality { adaptive: bool, bitrate: u32 },
}

/// The effect of the next tray command, `None` when the menu is gone: Disconnect
/// ends the session explicitly, Exit or a closed menu stops the host, and the other
/// commands change the configuration.
pub open spec fn action_effect_spec(a: Option<TrayAction>) -> ActionEffect {
    match a {
        Some(TrayAction::Disconnect) => ActionEffect::EndSession,
        Some(TrayAction::Exit) | None => ActionEffect::Quit,
        Some(TrayAction::Position(p)) => ActionEffect::Place(p),
        Some(TrayAction::Quality(choice)) => ActionEffect::SetQuality {
            adaptive: choice == 0,
            bitrate: if choice == 1 {
                6_000_000u32
            } else if choice == 2 {
                20_000_000u32
            } else {
                12_000_000u32
            },
        },
    }
}

pub fn action_effect(a: Option<TrayAction>) -> (r: ActionEffect)
    ensures
        r == action_effect_spec(a),
{
    match a {
        Some(TrayAction::Disconnect) => ActionEffect::EndSession,
        Some(TrayAction::Exit) | None => ActionEffect::Quit,
        Some(TrayAction::Position(p)) => ActionEffect::Place(p),
        Some(TrayAction::Quality(choice)) => {
            let (adaptive, bitrate) = quality(choice);
            ActionEffect::SetQuality { adaptive, bitrate }
        },
    }
}

} // verus!

//! Bounds and fixed values of the game rules.

use vstd::prelude::*;

verus! {

/// The highest karma a threshold can ask (written `MAX` in a dialog file).
pub const KARMA_MAX: i32 = 100;

/// The lowest karma a threshold can ask (written `MIN` in a dialog file).
pub const KARMA_MIN: i32 = -100;

/// Team of the main character and of the characters recruited by them.
pub const TEAM_MC: i32 = 0;

/// Team of Olf.
pub const TEAM_OLF: i32 = 1;

/// Team of the Fabicurions.
pub const TEAM_FABICURION: i32 = 2;

/// Starting statistics of the player.
pub const PLAYER_HP: i32 = 50;

pub const PLAYER_MANA: i32 = 100;

pub const PLAYER_INITIATIVE: i32 = 40;

pub const PLAYER_ATTACK: i32 = 10;

pub const PLAYER_ATTACK_SPE: i32 = 30;

pub const PLAYER_DEFENSE: i32 = 0;

pub const PLAYER_DEFENSE_SPE: i32 = 10;

/// Number of frames of the scroll animation.
pub const SCROLL_ANIMATION_FRAMES_NUMBER: usize = 45;

} // verus!

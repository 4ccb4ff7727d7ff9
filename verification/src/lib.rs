//! Verified core of a cave game's world generation and level editor: the editor's file
//! list, mode switching, picking and tunnel profile editing; room validation and the
//! asset build's bookkeeping; the layout graph, its growth step by step and the routing
//! of tunnels between portals; doorways and their mesh topology; weapon slots.

pub mod boundary;
pub mod builder;
pub mod door;
pub mod editor;
pub mod layout;
pub mod rng;
pub mod text;
pub mod tunnel;
pub mod weapons;

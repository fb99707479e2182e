//! What holds of the two conversions: laws that Verus proves from the
//! definitions of the conversions and from the registry.

pub mod basics;
pub mod forward;
pub mod killer_end;
pub mod killer_pairs;
pub mod killer_place;
pub mod read_back;
pub mod unknown;
pub mod white_space;

//! Derives a catalog of ships and weapons from an entity registry: weapon
//! figures are corrected by patches read from annotated source text, each
//! ship's weapon mounts are grouped with counts and ranges, and each ship's
//! effective range follows a three-tier fallback.
//!
//! Quantities are exact decimals held in millionths (`fixed`).

pub mod fixed;
pub mod text;
pub mod table;
pub mod overrides;
pub mod armament;
pub mod catalog;
pub mod paths;

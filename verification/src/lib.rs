//! A simulation core for a host-owned buffer of enemy records.
//!
//! The host keeps the records and hands them over for the length of one call
//! at a time. This crate answers "which live enemy is nearest", marks an
//! enemy as eliminated, settles the positions of a movement tick, and decides
//! which host services a reward or mint request may reach.
//!
//! Positions, distances and speeds are single-precision values carried as
//! their 32-bit patterns. The crate compares and classifies them; sums and
//! products of such values are formed by the caller and handed in.

pub mod binary32;
pub mod enemy;
pub mod engine;
pub mod marshal;
pub mod view;

pub use enemy::{Enemy, Position};
pub use engine::{find_nearest_enemy, move_enemies_randomly, shoot_enemy};
pub use marshal::{mint_nft_for_player, reward_player, HostCall};
pub use view::{EnemyView, ViewError};

//! A threshold-alerting engine for sensor readings.
//!
//! Subscribers configure directional bounds (minimum or maximum) on metrics of
//! named sensors. A periodic driver fetches readings and hands them to the
//! engine, which compares every reading against every subscriber's bounds and
//! emits edge-triggered notifications: one notification when a bound is first
//! violated, none while the violation persists, and a fresh one after the
//! value has returned within bounds and violates again. (The alternative
//! policy of clearing a bound after its first alert, so that the subscriber
//! must re-arm it by hand, is deliberately not implemented: flags re-arm by
//! themselves, and bounds are removed only by an explicit `clear`.)
//!
//! Values are carried as fixed-point integers in tenths of a unit (a reading
//! of 24.0 degrees is the value 240), so that all comparisons and renderings
//! are exact.

use vstd::prelude::*;

pub mod commands;
pub mod engine;
pub mod model;
pub mod render;
pub mod table;

pub use model::BoundDir;
pub use model::FetchError;
pub use model::Notification;
pub use model::Reading;

verus! {

/// Per-subscriber directional bounds on sensor metrics: the value stored
/// under a key is the bound, in tenths of a unit.
pub type ThresholdStore = table::BoundTable<i64>;

/// Per-(subscriber, sensor, metric, direction) "currently alerting" flags,
/// used to suppress repeated notifications while a violation persists.
pub type AlertFlagTable = table::BoundTable<bool>;

} // verus!

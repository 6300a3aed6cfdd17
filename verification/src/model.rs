use vstd::prelude::*;

verus! {

/// Direction of a bound: a minimum bound is violated when a reading's value
/// falls below it, a maximum bound when the value rises above it.
#[derive(Clone, Copy, Debug, PartialEq, Eq, Structural)]
pub enum BoundDir {
    Min,
    Max,
}

/// One sensor reading, as the driver hands it to the engine.
///
/// `value` is a fixed-point number in tenths of a unit (24.0 degrees is 240);
/// `observed_at` is an epoch timestamp in seconds.
#[derive(Clone, Debug)]
pub struct Reading {
    pub sensor_id: String,
    pub metric: String,
    pub value: i64,
    pub observed_at: i64,
}

/// Why a fetch of fresh readings produced no data. Both variants are
/// transient: the periodic driver simply tries again on the next tick.
#[derive(Clone, Copy, Debug, PartialEq, Eq, Structural)]
pub enum FetchError {
    /// The remote endpoint could not be reached, or the request timed out.
    Transport,
    /// The endpoint answered, but the payload did not decode to readings.
    Decode,
}

/// Spec-level identity of one directional bound owned by one subscriber: the
/// key of both the threshold store and the alert-flag table.
pub ghost struct BoundKey {
    pub subscriber: int,
    pub sensor_id: Seq<char>,
    pub metric: Seq<char>,
    pub dir: BoundDir,
}

/// One notification the evaluator decided to emit: subscriber `subscriber`
/// is told that `sensor_id`'s `metric` crossed their `dir` bound `bound`
/// with the measured `value`.
#[derive(Clone, Debug)]
pub struct Notification {
    pub subscriber: i64,
    pub sensor_id: String,
    pub metric: String,
    pub dir: BoundDir,
    pub value: i64,
    pub bound: i64,
}

/// Spec-level image of a [`Notification`].
pub ghost struct NotificationV {
    pub subscriber: int,
    pub sensor_id: Seq<char>,
    pub metric: Seq<char>,
    pub dir: BoundDir,
    pub value: int,
    pub bound: int,
}

impl View for Notification {
    type V = NotificationV;

    open spec fn view(&self) -> NotificationV {
        NotificationV {
            subscriber: self.subscriber as int,
            sensor_id: self.sensor_id@,
            metric: self.metric@,
            dir: self.dir,
            value: self.value as int,
            bound: self.bound as int,
        }
    }
}

/// String comparison whose outcome is visible to the verifier.
pub fn str_eq(a: &str, b: &str) -> (r: bool)
    ensures
        r == (a@ == b@),
{
    let sa: String = a.to_owned();
    let sb: String = b.to_owned();
    sa == sb
}

} // verus!

//! When the accelerometer is held, and what it last said.
//!
//! The sensor is powered for as long as someone holds it, and only an app that
//! fills the screen asks how the device is held: so it is held just then.
use vstd::prelude::*;

use crate::rotation::DeviceOrientation;

verus! {

/// What the worker is asked to do.
#[derive(Clone, Copy, Debug, PartialEq, Eq, Structural)]
pub enum Cmd {
    /// Hold the accelerometer, or let it go.
    Wanted(bool),
    /// Stop, letting it go first.
    Stop,
}

/// The shell's side of the sensor.
#[derive(Clone, Copy, Debug, PartialEq, Eq, Structural)]
pub struct Sensor {
    /// What the worker was last asked for.
    pub wanted: bool,
}

impl Sensor {
    pub fn new() -> (r: Self)
        ensures
            !r.wanted,
    {
        Sensor { wanted: false }
    }

    /// An app entered or left the whole screen. The result is what the worker
    /// has to be asked, if that is news.
    pub fn set_wanted(&mut self, wanted: bool) -> (r: Option<Cmd>)
        ensures
            final(self).wanted == wanted,
            r == (if wanted == old(self).wanted {
                None
            } else {
                Some(Cmd::Wanted(wanted))
            }),
    {
        if wanted == self.wanted {
            return None;
        }
        self.wanted = wanted;
        Some(Cmd::Wanted(wanted))
    }

    /// The newest of the readings that arrived, if any did: only where the
    /// device is now matters.
    pub fn latest(&self, readings: &Vec<DeviceOrientation>) -> (r: Option<DeviceOrientation>)
        ensures
            r == (if readings@.len() > 0 {
                Some(readings@.last())
            } else {
                None
            }),
    {
        if readings.len() == 0 {
            return None;
        }
        Some(readings[readings.len() - 1])
    }
}

/// What the worker found in its queue.
#[derive(Clone, Copy, Debug, PartialEq, Eq, Structural)]
pub enum Received {
    Cmd(Cmd),
    Nothing,
    /// The shell is gone.
    Disconnected,
}

/// What the worker does next.
#[derive(Clone, Copy, Debug, PartialEq, Eq, Structural)]
pub enum WorkerStep {
    /// Ask for the accelerometer.
    Claim,
    /// Let it go, and say that the device is held as usual: nothing will tell
    /// otherwise.
    Release,
    /// Listen for changes for a while.
    Listen,
    /// Leave the loop.
    Leave,
}

/// The worker's side of the sensor.
#[derive(Clone, Copy, Debug, PartialEq, Eq, Structural)]
pub struct Worker {
    pub claimed: bool,
}

impl Worker {
    pub open spec fn step(self, received: Received) -> WorkerStep {
        match received {
            Received::Cmd(Cmd::Wanted(true)) if !self.claimed => WorkerStep::Claim,
            Received::Cmd(Cmd::Wanted(false)) if self.claimed => WorkerStep::Release,
            Received::Cmd(Cmd::Wanted(_)) => WorkerStep::Listen,
            Received::Cmd(Cmd::Stop) => WorkerStep::Leave,
            Received::Disconnected => WorkerStep::Leave,
            Received::Nothing => WorkerStep::Listen,
        }
    }

    pub fn new() -> (r: Self)
        ensures
            !r.claimed,
    {
        Worker { claimed: false }
    }

    /// What the worker does about what it received.
    pub fn on_received(&mut self, received: Received) -> (r: WorkerStep)
        ensures
            r == old(self).step(received),
            final(self).claimed == (old(self).claimed && r != WorkerStep::Release),
    {
        match received {
            Received::Cmd(Cmd::Wanted(true)) => {
                if self.claimed {
                    WorkerStep::Listen
                } else {
                    WorkerStep::Claim
                }
            },
            Received::Cmd(Cmd::Wanted(false)) => {
                if self.claimed {
                    self.claimed = false;
                    WorkerStep::Release
                } else {
                    WorkerStep::Listen
                }
            },
            Received::Cmd(Cmd::Stop) => WorkerStep::Leave,
            Received::Disconnected => WorkerStep::Leave,
            Received::Nothing => WorkerStep::Listen,
        }
    }

    /// The accelerometer was granted or refused. The result is whether the
    /// current orientation has to be read: changes alone are announced, and the
    /// device may already be on its side.
    pub fn on_claimed(&mut self, granted: bool) -> (seed: bool)
        ensures
            final(self).claimed == granted,
            seed == granted,
    {
        self.claimed = granted;
        granted
    }

    /// Whether the accelerometer has to be let go when the worker stops.
    pub fn must_release(&self) -> (r: bool)
        ensures
            r == self.claimed,
    {
        self.claimed
    }
}

/// The accelerometer is asked for only while it is not held, and let go only
/// while it is.
pub proof fn law_claims_and_releases_alternate(worker: Worker, received: Received)
    ensures
        worker.step(received) == WorkerStep::Claim ==> !worker.claimed,
        worker.step(received) == WorkerStep::Release ==> worker.claimed,
{
}

/// The worker asks for the accelerometer when it is wanted and not held, lets it
/// go when it is held and no longer wanted, and leaves when it is told to or the
/// shell is gone; otherwise it listens.
pub proof fn law_worker_follows_what_is_wanted(worker: &mut Worker, received: Received, r: WorkerStep)
    requires
        call_ensures(Worker::on_received, (worker, received), r),
    ensures
        r == WorkerStep::Claim <==> received == Received::Cmd(Cmd::Wanted(true)) && !old(worker).claimed,
        r == WorkerStep::Release <==> received == Received::Cmd(Cmd::Wanted(false)) && old(worker).claimed,
        r == WorkerStep::Leave <==> received == Received::Cmd(Cmd::Stop) || received
            == Received::Disconnected,
        received == Received::Cmd(Cmd::Wanted(false)) ==> !final(worker).claimed,
        received != Received::Cmd(Cmd::Wanted(false)) ==> final(worker).claimed == old(worker).claimed,
{
}

/// What was granted is let go when the worker stops, and read once at first; what
/// was refused is neither.
pub proof fn law_granted_sensor_is_let_go(worker: &mut Worker, granted: bool, seed: bool, release: bool)
    requires
        call_ensures(Worker::on_claimed, (worker, granted), seed),
        call_ensures(Worker::must_release, (final(worker),), release),
    ensures
        seed <==> granted,
        release <==> granted,
{
}

/// The worker is asked once for each change, and for what is wanted now.
pub proof fn law_worker_is_asked_once(
    a: &mut Sensor,
    b: &mut Sensor,
    wanted: bool,
    first: Option<Cmd>,
    second: Option<Cmd>,
)
    requires
        call_ensures(Sensor::set_wanted, (a, wanted), first),
        *final(a) == *old(b),
        call_ensures(Sensor::set_wanted, (b, wanted), second),
    ensures
        first is Some <==> old(a).wanted != wanted,
        first is Some ==> first == Some(Cmd::Wanted(wanted)),
        second is None,
{
}

/// Of several readings the one that arrived last counts.
pub proof fn law_last_reading_counts(
    sensor: Sensor,
    before: Vec<DeviceOrientation>,
    readings: Vec<DeviceOrientation>,
    newest: DeviceOrientation,
    r: Option<DeviceOrientation>,
)
    requires
        readings@ == before@.push(newest),
        call_ensures(Sensor::latest, (&sensor, &readings), r),
    ensures
        r == Some(newest),
{
}

/// The sensor is not wanted, and not claimed, before anybody asks for it.
pub proof fn law_sensor_rests_at_first(sensor: Sensor, worker: Worker)
    requires
        call_ensures(Sensor::new, (), sensor),
        call_ensures(Worker::new, (), worker),
    ensures
        !sensor.wanted,
        !worker.claimed,
{
}

} // verus!

//! A client that turns the panel on and off.
use vstd::prelude::*;

verus! {

/// The mode that a client asks for.
#[derive(Clone, Copy, Debug, PartialEq, Eq, Structural)]
pub enum PowerMode {
    On,
    Off,
    /// A number that is neither.
    Other,
}

/// How a request for control is answered.
#[derive(Clone, Copy, Debug, PartialEq, Eq, Structural)]
pub enum Grant {
    /// Another output, or one that is under control already.
    Failed,
    /// Control is granted; the client is told whether the panel is dark.
    Granted {
        blanked: bool,
    },
}

/// How a request for a mode is answered.
#[derive(Clone, Copy, Debug, PartialEq, Eq, Structural)]
pub enum SetMode {
    /// The one who asks controls nothing.
    Ignored,
    /// There is no such mode: a protocol error.
    Invalid,
    /// The panel goes dark or lights up, and the client is told so. Lighting up
    /// needs a frame.
    Accepted {
        blanked: bool,
        needs_render: bool,
    },
}

/// Which client controls the panel, and what it was told last.
#[derive(Clone, Copy, Debug, PartialEq, Eq, Structural)]
pub struct OutputPower {
    pub active: Option<u64>,
    pub announced: Option<bool>,
}

impl OutputPower {
    /// Something was announced exactly while someone controls the panel.
    pub open spec fn wf(self) -> bool {
        self.active is Some <==> self.announced is Some
    }

    pub fn new() -> (r: Self)
        ensures
            r == (OutputPower { active: None, announced: None }),
            r.wf(),
    {
        OutputPower { active: None, announced: None }
    }

    /// The panel may have gone dark or lit up behind the client's back. What it
    /// has to be told, if it was not told so already.
    pub fn sync(&mut self, blanked: bool) -> (tell: Option<bool>)
        requires
            old(self).wf(),
        ensures
            final(self).wf(),
            final(self).active == old(self).active,
            final(self).announced == (if old(self).active is Some {
                Some(blanked)
            } else {
                None
            }),
            tell == (if old(self).active is Some && old(self).announced != Some(blanked) {
                Some(blanked)
            } else {
                None
            }),
    {
        match self.announced {
            Some(known) => {
                if known == blanked {
                    return None;
                }
            },
            None => {},
        }
        self.announce(blanked)
    }

    /// Whoever controls the panel is told, whether or not it is news.
    fn announce(&mut self, blanked: bool) -> (tell: Option<bool>)
        ensures
            final(self).active == old(self).active,
            final(self).announced == (if old(self).active is Some {
                Some(blanked)
            } else {
                None
            }),
            tell == final(self).announced,
    {
        if self.active.is_none() {
            self.announced = None;
            return None;
        }
        self.announced = Some(blanked);
        Some(blanked)
    }

    /// The client with the control `id` asks for the panel. `ours` is whether it
    /// asked for the output that there is.
    pub fn get_output_power(&mut self, id: u64, ours: bool, blanked: bool) -> (r: Grant)
        requires
            old(self).wf(),
        ensures
            final(self).wf(),
            if !ours || old(self).active is Some {
                r == Grant::Failed && *final(self) == *old(self)
            } else {
                r == (Grant::Granted { blanked }) && *final(self) == (OutputPower {
                    active: Some(id),
                    announced: Some(blanked),
                })
            },
    {
        if !ours || self.active.is_some() {
            return Grant::Failed;
        }
        self.active = Some(id);
        self.announced = Some(blanked);
        Grant::Granted { blanked }
    }

    fn controls(&self, id: u64) -> (r: bool)
        ensures
            r == (self.active == Some(id)),
    {
        match self.active {
            Some(active) => active == id,
            None => false,
        }
    }

    /// The control `id` asks for a mode. Whoever controls the panel is always
    /// answered, even when nothing changes: clients wait for the answer.
    pub fn set_mode(&mut self, id: u64, mode: PowerMode) -> (r: SetMode)
        requires
            old(self).wf(),
        ensures
            final(self).wf(),
            final(self).active == old(self).active,
            if old(self).active != Some(id) {
                r == SetMode::Ignored && *final(self) == *old(self)
            } else {
                match mode {
                    PowerMode::Other => r == SetMode::Invalid && *final(self) == *old(self),
                    PowerMode::On => r == (SetMode::Accepted { blanked: false, needs_render: true })
                        && final(self).announced == Some(false),
                    PowerMode::Off => r == (SetMode::Accepted { blanked: true, needs_render: false })
                        && final(self).announced == Some(true),
                }
            },
    {
        if !self.controls(id) {
            return SetMode::Ignored;
        }
        let blanked: bool = match mode {
            PowerMode::Off => true,
            PowerMode::On => false,
            PowerMode::Other => {
                return SetMode::Invalid;
            },
        };
        self.announce(blanked);
        SetMode::Accepted { blanked, needs_render: !blanked }
    }

    /// The control `id` is gone. The panel stays as it is, and is free for the
    /// next client.
    pub fn destroyed(&mut self, id: u64)
        requires
            old(self).wf(),
        ensures
            final(self).wf(),
            *final(self) == (if old(self).active == Some(id) {
                OutputPower { active: None, announced: None }
            } else {
                *old(self)
            }),
    {
        if self.controls(id) {
            self.active = None;
            self.announced = None;
        }
    }
}

/// Only whoever controls the panel switches it, and an answer says what was
/// asked for. A panel that lights up needs a frame, a dark one does not.
pub proof fn law_only_the_owner_switches_the_panel(
    power: &mut OutputPower,
    id: u64,
    mode: PowerMode,
    r: SetMode,
)
    requires
        call_ensures(OutputPower::set_mode, (power, id, mode), r),
    ensures
        r == SetMode::Ignored <==> old(power).active != Some(id),
        r == SetMode::Invalid <==> old(power).active == Some(id) && mode == PowerMode::Other,
        r is Accepted && mode == PowerMode::Off ==> r->blanked && !r->needs_render && final(power).announced
            == Some(true),
        r is Accepted && mode == PowerMode::On ==> !r->blanked && r->needs_render && final(power).announced
            == Some(false),
        !(r is Accepted) ==> *final(power) == *old(power),
{
}

/// The panel has one owner at a time: a second client fails for as long as the
/// first is there, and not after it is gone.
pub proof fn law_panel_has_one_owner(
    a: &mut OutputPower,
    b: &mut OutputPower,
    c: &mut OutputPower,
    d: &mut OutputPower,
    first: u64,
    second: u64,
    blanked: bool,
    refused: Grant,
    granted: Grant,
)
    requires
        call_ensures(OutputPower::get_output_power, (a, first, true, blanked), Grant::Granted { blanked }),
        *final(a) == *old(b),
        call_ensures(OutputPower::get_output_power, (b, second, true, blanked), refused),
        *final(b) == *old(c),
        call_ensures(OutputPower::destroyed, (c, first), ()),
        *final(c) == *old(d),
        call_ensures(OutputPower::get_output_power, (d, second, true, blanked), granted),
    ensures
        refused == Grant::Failed,
        final(b).active == Some(first),
        granted == (Grant::Granted { blanked }),
        final(d).active == Some(second),
{
}

/// Another output is never granted, and a free one always is, with the truth
/// about the panel.
pub proof fn law_free_panel_is_granted(
    power: &mut OutputPower,
    id: u64,
    ours: bool,
    blanked: bool,
    r: Grant,
)
    requires
        call_ensures(OutputPower::get_output_power, (power, id, ours, blanked), r),
    ensures
        r is Granted <==> ours && old(power).active is None,
        r is Granted ==> r->blanked == blanked && final(power).announced == Some(blanked),
{
}

/// The owner hears of a change behind its back once.
pub proof fn law_owner_is_told_of_news(
    a: &mut OutputPower,
    b: &mut OutputPower,
    blanked: bool,
    first: Option<bool>,
    second: Option<bool>,
)
    requires
        call_ensures(OutputPower::sync, (a, blanked), first),
        *final(a) == *old(b),
        call_ensures(OutputPower::sync, (b, blanked), second),
    ensures
        first is Some <==> old(a).active is Some && old(a).announced != Some(blanked),
        first is Some ==> first == Some(blanked),
        second is None,
{
}

/// A control that is gone frees the panel exactly if it was the owner's.
pub proof fn law_only_the_owner_frees_the_panel(power: &mut OutputPower, id: u64)
    requires
        call_ensures(OutputPower::destroyed, (power, id), ()),
    ensures
        old(power).active == Some(id) ==> final(power).active is None,
        old(power).active != Some(id) ==> *final(power) == *old(power),
{
}

/// Nobody controls the power of the output at first, and nobody was told of it.
pub proof fn law_power_has_no_owner_at_first(power: OutputPower)
    requires
        call_ensures(OutputPower::new, (), power),
    ensures
        power.active is None,
        power.announced is None,
{
}

} // verus!

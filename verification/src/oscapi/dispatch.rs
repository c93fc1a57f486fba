//! The dispatch layer: the cold start, the one oscillator instance, and the
//! functions that turn the host's calls into calls on that instance.
//!
//! The host calls `init` first and once. Before the oscillator is built, the
//! memory that a loader would have cleared is cleared and the static
//! initializers are run, in that order; `ColdStart` keeps the order. Every
//! later call reaches the oscillator through `Instance`, which must hold one:
//! the functions here demand it of their callers.

use vstd::prelude::*;

use crate::oscapi::{OscParam, UserOsc, UserOscParam};

verus! {

/// The progress of a cold start: the memory is cleared, and so many of the
/// static initializers have been handed out to be run.
pub struct ColdStart {
    initializers: usize,
    next: usize,
}

impl ColdStart {
    /// How many static initializers the table holds.
    pub closed spec fn initializers(&self) -> nat {
        self.initializers as nat
    }

    /// How many of them have been handed out.
    pub closed spec fn handed_out(&self) -> nat {
        self.next as nat
    }

    /// No more were handed out than there are.
    pub closed spec fn wf(&self) -> bool {
        self.next <= self.initializers
    }

    /// Every initializer has been handed out.
    pub open spec fn is_done(&self) -> bool {
        self.handed_out() == self.initializers()
    }

    /// Clears `bss`, the memory of the plugin's zero-initialized data, and
    /// starts the run through a table of `initializers` static initializers.
    pub fn begin(bss: &mut [u8], initializers: usize) -> (start: ColdStart)
        ensures
            final(bss)@ == Seq::new(old(bss)@.len(), |i: int| 0u8),
            start.wf(),
            start.initializers() == initializers,
            start.handed_out() == 0,
    {
        let len = bss.len();
        let mut i: usize = 0;
        while i < len
            invariant
                len == bss@.len(),
                bss@.len() == old(bss)@.len(),
                i <= len,
                forall|j: int| 0 <= j < i ==> bss@[j] == 0,
            decreases len - i,
        {
            bss[i] = 0;
            i += 1;
        }
        ColdStart { initializers, next: 0 }
    }

    /// The place in the table of the initializer to run next: each place
    /// once, in the table's order, then `None`.
    pub fn next_initializer(&mut self) -> (entry: Option<usize>)
        requires
            old(self).wf(),
        ensures
            final(self).wf(),
            final(self).initializers() == old(self).initializers(),
            !old(self).is_done() ==> entry == Some(old(self).handed_out() as usize)
                && final(self).handed_out() == old(self).handed_out() + 1,
            old(self).is_done() ==> entry.is_none()
                && final(self).handed_out() == old(self).handed_out(),
    {
        if self.next < self.initializers {
            let entry = self.next;
            self.next += 1;
            Some(entry)
        } else {
            None
        }
    }

    /// Whether every initializer has been handed out.
    pub fn done(&self) -> (done: bool)
        ensures
            done == self.is_done(),
    {
        self.next == self.initializers
    }
}

/// The place of the one oscillator of a plugin: empty until `init_cb` fills it.
pub struct Instance<T> {
    slot: Option<T>,
}

impl<T> View for Instance<T> {
    type V = Option<T>;

    /// The oscillator, once there is one.
    closed spec fn view(&self) -> Option<T> {
        self.slot
    }
}

impl<T> Instance<T> {
    /// The empty place.
    pub fn uninit() -> (instance: Self)
        ensures
            instance@.is_none(),
    {
        Instance { slot: None }
    }

    /// Whether the oscillator has been built.
    pub fn is_init(&self) -> (init: bool)
        ensures
            init == self@.is_some(),
    {
        self.slot.is_some()
    }
}

/// The host's `init`: builds the oscillator and stores it, at the end of a
/// cold start.
pub fn init_cb<T: UserOsc>(instance: &mut Instance<T>, start: ColdStart, platform: u32, api: u32)
    requires
        old(instance)@.is_none(),
        start.is_done(),
    ensures
        final(instance)@ matches Some(osc) && T::init_ensures(platform, api, osc),
{
    instance.slot = Some(T::init(platform, api));
}

/// The host's `cycle`: the oscillator fills `buf`.
pub fn cycle_cb<T: UserOsc>(instance: &mut Instance<T>, params: &UserOscParam, buf: &mut [i32])
    requires
        old(instance)@.is_some(),
    ensures
        final(buf)@.len() == old(buf)@.len(),
        final(instance)@ matches Some(after) && old(instance)@.unwrap().cycle_ensures(
            *params,
            old(buf)@,
            after,
            final(buf)@,
        ),
{
    match &mut instance.slot {
        Some(osc) => osc.cycle(params, buf),
        None => {},
    }
}

/// The host's `note on`.
pub fn on_cb<T: UserOsc>(instance: &mut Instance<T>, params: &UserOscParam)
    requires
        old(instance)@.is_some(),
    ensures
        final(instance)@ matches Some(after) && old(instance)@.unwrap().note_on_ensures(
            *params,
            after,
        ),
{
    match &mut instance.slot {
        Some(osc) => osc.note_on(params),
        None => {},
    }
}

/// The host's `note off`.
pub fn off_cb<T: UserOsc>(instance: &mut Instance<T>, params: &UserOscParam)
    requires
        old(instance)@.is_some(),
    ensures
        final(instance)@ matches Some(after) && old(instance)@.unwrap().note_off_ensures(
            *params,
            after,
        ),
{
    match &mut instance.slot {
        Some(osc) => osc.note_off(params),
        None => {},
    }
}

/// The host's `mute`.
pub fn mute_cb<T: UserOsc>(instance: &mut Instance<T>, params: &UserOscParam)
    requires
        old(instance)@.is_some(),
    ensures
        final(instance)@ matches Some(after) && old(instance)@.unwrap().mute_ensures(
            *params,
            after,
        ),
{
    match &mut instance.slot {
        Some(osc) => osc.mute(params),
        None => {},
    }
}

/// The host's `value`.
pub fn value_cb<T: UserOsc>(instance: &mut Instance<T>, value: u16)
    requires
        old(instance)@.is_some(),
    ensures
        final(instance)@ matches Some(after) && old(instance)@.unwrap().value_ensures(
            value,
            after,
        ),
{
    match &mut instance.slot {
        Some(osc) => osc.value(value),
        None => {},
    }
}

/// The host's `param`: an index that names a parameter reaches the
/// oscillator with its value; any other index is dropped, and the instance is
/// not touched.
pub fn param_cb<T: UserOsc>(instance: &mut Instance<T>, idx: u16, value: u16)
    requires
        OscParam::of_index(idx).is_some() ==> old(instance)@.is_some(),
    ensures
        match OscParam::of_index(idx) {
            Some(param) => final(instance)@ matches Some(after)
                && old(instance)@.unwrap().param_ensures(param, value, after),
            None => final(instance)@ == old(instance)@,
        },
{
    match OscParam::try_from(idx) {
        Ok(param) => {
            match &mut instance.slot {
                Some(osc) => osc.param(param, value),
                None => {},
            }
        },
        Err(_) => {},
    }
}

} // verus!

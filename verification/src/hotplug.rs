//! Support for hotplug events.
//!
//! The recommended way to support device hotplug in applications is to use [`enumerate`], which
//! combines the devices that are plugged in with those that will be.
use crate::error::{item_of, next_item, Error, ErrorKind};
use std::collections::VecDeque;
use vstd::prelude::*;

verus! {

/// What an enumeration does next.
#[derive(Debug)]
pub enum Step<T> {
    /// It yields a device that is plugged in.
    Device(T),
    /// It waits for a hotplug event: the monitor has to be read, and what came of it handed to
    /// [`Enumerate::polled`].
    Poll,
    /// It has ended.
    Done,
}

/// The devices that are still to be yielded, and where to learn of more.
#[verifier::ext_equal]
#[verifier::reject_recursive_types(T)]
#[verifier::reject_recursive_types(M)]
pub struct EnumerateView<T, M> {
    pub present: Seq<T>,
    pub monitor: Option<M>,
}

impl<T, M> EnumerateView<T, M> {
    /// What the enumeration does next.
    pub open spec fn step(self) -> Step<T> {
        if self.present.len() > 0 {
            Step::Device(self.present[0])
        } else if self.monitor is Some {
            Step::Poll
        } else {
            Step::Done
        }
    }

    /// The enumeration after it has gone on once.
    pub open spec fn after_next(self) -> EnumerateView<T, M> {
        if self.present.len() > 0 {
            self.after_devices(1)
        } else {
            self
        }
    }

    /// The enumeration after the monitor has been read. If that yielded nothing, there will be no
    /// more hotplug events.
    pub open spec fn after_poll(self, yielded: bool) -> EnumerateView<T, M> {
        if yielded {
            self
        } else {
            EnumerateView { monitor: None, ..self }
        }
    }

    /// The enumeration after `count` of the devices that are plugged in have been yielded.
    pub open spec fn after_devices(self, count: int) -> EnumerateView<T, M> {
        EnumerateView { present: self.present.skip(count), ..self }
    }
}

/// An enumeration of all devices, including hotplugged ones.
///
/// Returned by [`enumerate`].
#[derive(Debug)]
pub struct Enumerate<T, M> {
    present: VecDeque<T>,
    monitor: Option<M>,
}

impl<T, M> View for Enumerate<T, M> {
    type V = EnumerateView<T, M>;

    closed spec fn view(&self) -> EnumerateView<T, M> {
        EnumerateView { present: self.present@, monitor: self.monitor }
    }
}

impl<T, M> Enumerate<T, M> {
    /// Creates an enumeration of the devices `present`, followed by what `monitor` reports.
    pub fn new(present: VecDeque<T>, monitor: Option<M>) -> (devices: Self)
        ensures
            devices@ == (EnumerateView { present: present@, monitor }),
    {
        Enumerate { present, monitor }
    }

    /// Goes on with the enumeration.
    pub fn next(&mut self) -> (step: Step<T>)
        ensures
            step == old(self)@.step(),
            final(self)@ == old(self)@.after_next(),
    {
        match self.present.pop_front() {
            Some(device) => Step::Device(device),
            None => if self.monitor.is_some() {
                Step::Poll
            } else {
                Step::Done
            },
        }
    }

    /// Returns the monitor, as long as it has not run out of events.
    pub fn monitor(&self) -> (monitor: Option<&M>)
        ensures
            match monitor {
                Some(monitor) => self@.monitor == Some(*monitor),
                None => self@.monitor is None,
            },
    {
        self.monitor.as_ref()
    }

    /// Takes in what reading the monitor gave, and returns what the enumeration yields. It ends
    /// when there is no hotplug event and none is waited for.
    pub fn polled<U, E>(&mut self, result: Result<U, Error<E>>) -> (item: Option<
        Result<U, Error<E>>,
    >)
        ensures
            item == item_of(result),
            final(self)@ == old(self)@.after_poll(item is Some),
    {
        let item = next_item(result);
        if item.is_none() {
            self.monitor = None;
        }
        item
    }
}

/// Whether an enumeration can go on with this outcome of creating the monitor: it was created, or
/// the platform does not support hotplug.
pub open spec fn monitor_usable<M, E>(monitor: Result<M, Error<E>>) -> bool {
    match monitor {
        Ok(_) => true,
        Err(error) => error.kind == ErrorKind::Unsupported,
    }
}

/// Enumerates all devices, including hotplugged ones.
///
/// The enumeration first yields all devices currently plugged in, which `list` finds, and then
/// those that `monitor` reports.
///
/// If hotplug is not supported on the platform, this degrades gracefully and only yields the
/// devices that are currently plugged in. If creating the monitor failed for another reason,
/// devices are not looked for.
pub fn enumerate<T, M, E, F: FnOnce() -> Result<VecDeque<T>, Error<E>>>(
    monitor: Result<M, Error<E>>,
    list: F,
) -> (devices: Result<Enumerate<T, M>, Error<E>>)
    requires
        monitor_usable(monitor) ==> call_requires(list, ()),
    ensures
        !monitor_usable(monitor) ==> devices == Err::<Enumerate<T, M>, Error<E>>(monitor->Err_0),
        monitor_usable(monitor) ==> exists|present: Result<VecDeque<T>, Error<E>>| #[trigger]
            call_ensures(list, (), present) && match present {
                Ok(present) => {
                    &&& devices matches Ok(devices)
                    &&& devices@ == (EnumerateView { present: present@, monitor: monitor.ok() })
                },
                Err(error) => devices == Err::<Enumerate<T, M>, Error<E>>(error),
            },
{
    let monitor = match monitor {
        Ok(monitor) => Some(monitor),
        Err(error) => {
            if error.kind != ErrorKind::Unsupported {
                return Err(error);
            }
            None
        },
    };
    match list() {
        Ok(present) => Ok(Enumerate::new(present, monitor)),
        Err(error) => Err(error),
    }
}

/// The devices that are plugged in are all yielded, in order, before any hotplug event.
pub proof fn present_devices_come_first<T, M>(devices: EnumerateView<T, M>, count: int)
    requires
        0 <= count <= devices.present.len(),
    ensures
        count < devices.present.len() ==> {
            &&& devices.after_devices(count).step() == Step::<T>::Device(devices.present[count])
            &&& devices.after_devices(count).after_next() == devices.after_devices(count + 1)
        },
        count == devices.present.len() ==> devices.after_devices(count).step()
            == if devices.monitor is Some {
            Step::<T>::Poll
        } else {
            Step::<T>::Done
        },
{
    if count < devices.present.len() {
        assert(devices.present.skip(count).skip(1) =~= devices.present.skip(count + 1));
    }
}

/// Hotplug events are waited for until there are none, and then the enumeration has ended for good.
pub proof fn enumeration_ends_for_good<T, M>(devices: EnumerateView<T, M>)
    requires
        devices.step() is Poll,
    ensures
        devices.after_next() == devices,
        devices.after_poll(true).step() is Poll,
        devices.after_poll(false).step() is Done,
        devices.after_poll(false).after_next() == devices.after_poll(false),
{
}

/// Going on yields the first of the devices that are plugged in and keeps the others, in order, and
/// keeps the monitor. Only when there are none left does it depend on the monitor what happens.
pub proof fn going_on_yields_the_first_device<T, M>(devices: EnumerateView<T, M>)
    ensures
        devices.present.len() > 0 ==> {
            &&& devices.step() == Step::<T>::Device(devices.present[0])
            &&& devices.after_next().present == devices.present.drop_first()
        },
        devices.present.len() == 0 ==> {
            &&& devices.step() is Poll <==> devices.monitor is Some
            &&& devices.step() is Done <==> devices.monitor is None
            &&& devices.after_next().present == devices.present
        },
        devices.after_next().monitor == devices.monitor,
{
    if devices.present.len() > 0 {
        assert(devices.present.skip(1) =~= devices.present.drop_first());
    }
}

/// Reading the monitor does not concern the devices that are plugged in. The monitor is given up if
/// and only if it yielded nothing.
pub proof fn monitor_is_kept_while_it_yields<T, M>(devices: EnumerateView<T, M>)
    ensures
        devices.after_poll(true) == devices,
        devices.after_poll(false).present == devices.present,
        devices.after_poll(false).monitor is None,
{
}

/// Only a monitor that could not be created for another reason than missing support keeps an
/// enumeration from starting.
pub proof fn missing_support_is_no_failure<M, E>(monitor: Result<M, Error<E>>)
    ensures
        monitor_usable(monitor) <==> (monitor is Ok || monitor->Err_0.kind
            == ErrorKind::Unsupported),
{
}

} // verus!

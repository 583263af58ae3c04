//! Wakers of tasks that wait for the stack.

use core::task::Waker;
use vstd::prelude::*;

verus! {

/// The waker of a task.
#[verifier::external_type_specification]
#[verifier::external_body]
pub struct ExWaker(core::task::Waker);

/// A second waker of the same task.
///
/// Calls `Waker::clone`. Nothing of a waker is visible but which task it wakes,
/// and that is the same for the copy.
#[verifier::external_body]
fn copy_waker(waker: &Waker) -> (copy: Waker)
    ensures
        copy == *waker,
{
    waker.clone()
}

/// A place for the waker of one task, with a record of the wakers that were woken.
pub struct WakerRegistration {
    waker: Option<Waker>,
    /// The wakers that were woken, the latest last.
    woken: Ghost<Seq<Waker>>,
}

/// Which task waits, and which ones were woken, the latest last.
#[verifier::ext_equal]
pub struct WakerView {
    pub waiting: Option<Waker>,
    pub woken: Seq<Waker>,
}

impl View for WakerRegistration {
    type V = WakerView;

    closed spec fn view(&self) -> WakerView {
        WakerView { waiting: self.waker, woken: self.woken@ }
    }
}

impl WakerView {
    /// No task is waiting, and none was woken.
    pub open spec fn unused() -> WakerView {
        WakerView { waiting: None, woken: Seq::empty() }
    }

    /// The task of `waker` is waiting, in place of the one that waited before.
    pub open spec fn registered(self, waker: Waker) -> WakerView {
        WakerView { waiting: Some(waker), ..self }
    }

    /// The task that was waiting, if there was one, was woken, once.
    pub open spec fn fired(self) -> WakerView {
        match self.waiting {
            Some(waker) => WakerView { waiting: None, woken: self.woken.push(waker) },
            None => self,
        }
    }
}

/// Wake the task of a waker, using the waker up, and put it on the record of `place`.
///
/// Calls `Waker::wake`, which wakes the task. When the task runs then is up to its
/// executor. Nothing but this function adds to the record.
#[verifier::external_body]
fn wake_task(place: &mut WakerRegistration, waker: Waker)
    ensures
        final(place)@ == (WakerView { woken: old(place)@.woken.push(waker), ..old(place)@ }),
{
    waker.wake()
}

impl WakerRegistration {
    /// No task is waiting.
    pub fn new() -> (registration: WakerRegistration)
        ensures
            registration@ == WakerView::unused(),
    {
        WakerRegistration { waker: None, woken: Ghost(Seq::empty()) }
    }

    /// Keep the waker of a task, in place of the one kept before.
    pub fn register(&mut self, waker: &Waker)
        ensures
            final(self)@ == old(self)@.registered(*waker),
    {
        self.waker = Some(copy_waker(waker));
    }

    /// Wake the task that is waiting, if there is one. It has to register again
    /// to be woken again.
    pub fn wake(&mut self)
        ensures
            final(self)@ == old(self)@.fired(),
    {
        match self.waker.take() {
            Some(waker) => wake_task(self, waker),
            None => {},
        }
    }
}

/// A task that waits is woken by the next wake and by no later one, unless it
/// registers again.
pub proof fn task_is_woken_once(place: WakerView, waker: Waker)
    ensures
        place.registered(waker).fired().woken == place.woken.push(waker),
        place.registered(waker).fired().waiting is None,
        place.registered(waker).fired().fired() == place.registered(waker).fired(),
{
}

/// Of two tasks that register one after the other, only the later one is woken.
pub proof fn later_task_replaces_the_earlier(place: WakerView, earlier: Waker, later: Waker)
    ensures
        place.registered(earlier).registered(later).fired() == place.registered(later).fired(),
{
}

} // verus!

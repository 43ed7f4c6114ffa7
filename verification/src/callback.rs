//! Fixed-size registry of board-supplied callback handlers, one slot per
//! callback kind. Bring-up code registers a handler for each kind it
//! supports; interrupt and application code then ask the registry which
//! handler to run. A kind with no handler dispatches nothing: invoking it
//! is a silent no-op, so boards may omit callbacks they do not need.
//!
//! Handlers are identified by small integer tokens chosen by the board; the
//! board maps each token back to its own routine when it performs the
//! dispatch the registry decided on. The registry's one lock never blocks:
//! taking it while it is held is a programming error, stated here as a
//! precondition rather than a wait.

use vstd::prelude::*;

verus! {

/// The callback kinds the runtime knows about.
#[derive(Clone, Copy, PartialEq, Eq, Structural, Debug)]
pub enum CallbackKind {
    Systick,
    TriggerCrash,
    MicrosecondDelay,
    MicrosecondTickProvider,
}

/// A registration request: a kind together with the handler to install.
#[derive(Clone, Copy, PartialEq, Eq, Structural, Debug)]
pub enum CallbackType {
    Systick(u32),
    TriggerCrash(u32),
    MicrosecondDelay(u32),
    MicrosecondTickProvider(u32),
}

/// An invocation request: a kind together with the argument the kind
/// carries, if any. Only a microsecond delay carries a payload; a
/// tick-source swap hands the board's routine its own provider slot.
#[derive(Clone, Copy, PartialEq, Eq, Structural, Debug)]
pub enum Callback {
    Systick,
    TriggerCrash,
    MicrosecondDelay(u32),
    MicrosecondTickProvider,
}

/// The dispatch the registry decided on: which handler the board must run,
/// and the argument to pass it.
#[derive(Clone, Copy, PartialEq, Eq, Structural, Debug)]
pub struct Invocation {
    pub handler: u32,
    pub arg: Option<u32>,
}

pub open spec fn type_kind(cb: CallbackType) -> CallbackKind {
    match cb {
        CallbackType::Systick(_) => CallbackKind::Systick,
        CallbackType::TriggerCrash(_) => CallbackKind::TriggerCrash,
        CallbackType::MicrosecondDelay(_) => CallbackKind::MicrosecondDelay,
        CallbackType::MicrosecondTickProvider(_) => CallbackKind::MicrosecondTickProvider,
    }
}

pub open spec fn type_handler(cb: CallbackType) -> u32 {
    match cb {
        CallbackType::Systick(h) => h,
        CallbackType::TriggerCrash(h) => h,
        CallbackType::MicrosecondDelay(h) => h,
        CallbackType::MicrosecondTickProvider(h) => h,
    }
}

pub open spec fn call_kind(cb: Callback) -> CallbackKind {
    match cb {
        Callback::Systick => CallbackKind::Systick,
        Callback::TriggerCrash => CallbackKind::TriggerCrash,
        Callback::MicrosecondDelay(_) => CallbackKind::MicrosecondDelay,
        Callback::MicrosecondTickProvider => CallbackKind::MicrosecondTickProvider,
    }
}

/// The argument an invocation of `cb` carries.
pub open spec fn call_arg(cb: Callback) -> Option<u32> {
    match cb {
        Callback::MicrosecondDelay(us) => Some(us),
        _ => None,
    }
}

struct Callbacks {
    systick: Option<u32>,
    crash: Option<u32>,
    microsecond_delay: Option<u32>,
    microsecond_tick_provider: Option<u32>,
}

/// The callback registry, together with its never-blocking lock.
pub struct BoardInterface {
    callbacks: Callbacks,
    locked: bool,
}

impl BoardInterface {
    /// The handler registered for `k`, if any.
    pub closed spec fn slot(self, k: CallbackKind) -> Option<u32> {
        match k {
            CallbackKind::Systick => self.callbacks.systick,
            CallbackKind::TriggerCrash => self.callbacks.crash,
            CallbackKind::MicrosecondDelay => self.callbacks.microsecond_delay,
            CallbackKind::MicrosecondTickProvider => self.callbacks.microsecond_tick_provider,
        }
    }

    /// Whether the registry's lock is currently held. Taking the lock while
    /// this is true is a fatal condition, never a wait, so every operation
    /// demands it to be false.
    pub closed spec fn locked(self) -> bool {
        self.locked
    }

    /// What `register_callback` does: the slot for `cb`'s kind holds `cb`'s
    /// handler and every other slot is unchanged.
    pub open spec fn register_post(pre: BoardInterface, post: BoardInterface, cb: CallbackType) -> bool {
        &&& !post.locked()
        &&& post.slot(type_kind(cb)) == Some(type_handler(cb))
        &&& forall|k: CallbackKind|
            k != type_kind(cb) ==> #[trigger] post.slot(k) == pre.slot(k)
    }

    /// What invoking `cb` dispatches: the registered handler with the
    /// argument the kind carries, or nothing when the slot is empty.
    pub open spec fn dispatch_of(self, cb: Callback) -> Option<Invocation> {
        match self.slot(call_kind(cb)) {
            None => None,
            Some(h) => Some(Invocation { handler: h, arg: call_arg(cb) }),
        }
    }

    /// A fresh registry: every slot empty, lock free.
    pub fn new() -> (r: BoardInterface)
        ensures
            !r.locked(),
            forall|k: CallbackKind| #[trigger] r.slot(k) == None::<u32>,
    {
        BoardInterface {
            callbacks: Callbacks {
                systick: None,
                crash: None,
                microsecond_delay: None,
                microsecond_tick_provider: None,
            },
            locked: false,
        }
    }

    /// Stores `cb`'s handler into the slot for `cb`'s kind, replacing any
    /// prior handler. Meant for board bring-up, strictly before the
    /// interrupt source that would invoke the same kind is enabled.
    pub fn register_callback(&mut self, cb: CallbackType)
        requires
            !old(self).locked(),
        ensures
            Self::register_post(*old(self), *final(self), cb),
    {
        match cb {
            CallbackType::Systick(h) => {
                self.callbacks.systick = Some(h);
            }
            CallbackType::TriggerCrash(h) => {
                self.callbacks.crash = Some(h);
            }
            CallbackType::MicrosecondDelay(h) => {
                self.callbacks.microsecond_delay = Some(h);
            }
            CallbackType::MicrosecondTickProvider(h) => {
                self.callbacks.microsecond_tick_provider = Some(h);
            }
        }
    }

    /// Decides the dispatch for `cb`: the stored handler with `cb`'s
    /// argument when the slot is filled, and nothing — a silent no-op —
    /// when the kind was never registered.
    pub fn callback(&self, cb: Callback) -> (r: Option<Invocation>)
        requires
            !self.locked(),
        ensures
            r == self.dispatch_of(cb),
    {
        let slot = match cb {
            Callback::Systick => self.callbacks.systick,
            Callback::TriggerCrash => self.callbacks.crash,
            Callback::MicrosecondDelay(_) => self.callbacks.microsecond_delay,
            Callback::MicrosecondTickProvider => self.callbacks.microsecond_tick_provider,
        };
        match slot {
            None => None,
            Some(h) => Some(Invocation {
                handler: h,
                arg: match cb {
                    Callback::MicrosecondDelay(us) => Some(us),
                    _ => None,
                },
            }),
        }
    }
}

/// A callback kind that was never registered dispatches nothing, for every
/// invocation of that kind: invoking it is a no-op and never faults.
pub proof fn lemma_invoke_unregistered(b: BoardInterface, cb: Callback)
    requires
        b.slot(call_kind(cb)) == None::<u32>,
    ensures
        b.dispatch_of(cb) == None::<Invocation>,
{
}

/// Registering a handler for a kind fully replaces the previous one: after
/// two registrations for the same kind, every invocation of that kind
/// dispatches the second handler, and no invocation ever dispatches the
/// first again.
pub proof fn lemma_register_replaces(
    b0: BoardInterface,
    b1: BoardInterface,
    b2: BoardInterface,
    first: CallbackType,
    second: CallbackType,
    cb: Callback,
)
    requires
        type_kind(first) == type_kind(second),
        BoardInterface::register_post(b0, b1, first),
        BoardInterface::register_post(b1, b2, second),
        call_kind(cb) == type_kind(second),
    ensures
        b2.dispatch_of(cb) == Some(Invocation { handler: type_handler(second), arg: call_arg(cb) }),
{
}

} // verus!

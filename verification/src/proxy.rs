//! What the proxy passes on between a client and the compositor, and what it serves itself.

use vstd::prelude::*;

verus! {

/// The interfaces that the proxy tells apart.
#[derive(Clone, Copy, Debug, PartialEq, Eq, Structural)]
pub enum Interface {
    WlSeat,
    ZwlrVirtualPointerManagerV1,
    ZwpVirtualKeyboardManagerV1,
    Other,
}

/// The interfaces that the proxy serves itself.
pub open spec fn is_synthetic(interface: Interface) -> bool {
    interface == Interface::ZwlrVirtualPointerManagerV1 || interface
        == Interface::ZwpVirtualKeyboardManagerV1
}

/// A step in answering a client that asks for the registry.
#[derive(Clone, Copy, Debug, PartialEq, Eq, Structural)]
pub enum RegistryStep {
    /// Get a private registry, to find the seat and its keymap.
    WatchSeat,
    /// Pass the request on.
    Forward,
    /// Send a sync request, and announce our globals when it is done.
    AnnounceWhenDone,
}

/// The steps in answering a client that asks for the registry, given whether the seat is being
/// watched. Our globals must only be added after the existing globals have been forwarded since
/// some clients depend on the order (e.g., wayvnc silently fails if the wl_seat and outputs
/// aren't first).
pub open spec fn registry_steps(init: bool) -> Seq<RegistryStep> {
    if init {
        seq![RegistryStep::Forward, RegistryStep::AnnounceWhenDone]
    } else {
        seq![RegistryStep::WatchSeat, RegistryStep::Forward, RegistryStep::AnnounceWhenDone]
    }
}

/// The connection of a client.
pub struct Display {
    init: bool,
}

impl Display {
    /// Whether the seat is being watched.
    pub closed spec fn init(self) -> bool {
        self.init
    }

    pub fn new() -> (display: Self)
        ensures
            !display.init(),
    {
        Self { init: false }
    }

    /// The client asks for the registry.
    pub fn handle_get_registry(&mut self) -> (steps: Vec<RegistryStep>)
        ensures
            steps@ == registry_steps(old(self).init()),
            final(self).init(),
    {
        let mut steps: Vec<RegistryStep> = Vec::new();
        if !self.init {
            self.init = true;
            steps.push(RegistryStep::WatchSeat);
        }
        steps.push(RegistryStep::Forward);
        steps.push(RegistryStep::AnnounceWhenDone);
        assert(steps@ =~= registry_steps(old(self).init()));
        steps
    }
}

/// The globals that are announced to a client in addition to the compositor's.
pub open spec fn announced() -> Seq<Interface> {
    seq![Interface::ZwlrVirtualPointerManagerV1, Interface::ZwpVirtualKeyboardManagerV1]
}

/// The globals that are announced to a client in addition to the compositor's.
pub fn synthetic_globals() -> (globals: Vec<Interface>)
    ensures
        globals@ == announced(),
{
    let mut globals: Vec<Interface> = Vec::new();
    globals.push(Interface::ZwlrVirtualPointerManagerV1);
    globals.push(Interface::ZwpVirtualKeyboardManagerV1);
    assert(globals@ =~= announced());
    globals
}

/// What is done about a global of the compositor.
#[derive(Clone, Copy, Debug, PartialEq, Eq, Structural)]
pub enum GlobalAction {
    Ignore,
    Forward,
}

/// What is done about a global of the compositor: those that the proxy serves itself are hidden.
pub open spec fn global_action(interface: Interface) -> GlobalAction {
    if is_synthetic(interface) {
        GlobalAction::Ignore
    } else {
        GlobalAction::Forward
    }
}

/// What is done about an object that the client binds.
#[derive(Clone, Copy, Debug, PartialEq, Eq, Structural)]
pub enum BindAction {
    /// It is a virtual pointer manager of ours.
    Pointers,
    /// It is a virtual keyboard manager of ours.
    Keyboards,
    /// It is an object of the compositor.
    Forward,
}

/// What is done about an object that the client binds.
pub open spec fn bind_action(interface: Interface) -> BindAction {
    match interface {
        Interface::ZwlrVirtualPointerManagerV1 => BindAction::Pointers,
        Interface::ZwpVirtualKeyboardManagerV1 => BindAction::Keyboards,
        _ => BindAction::Forward,
    }
}

/// The registry of a client.
pub struct Registry;

impl Registry {
    /// The compositor announces a global.
    pub fn handle_global(&self, interface: Interface) -> (action: GlobalAction)
        ensures
            action == global_action(interface),
    {
        match interface {
            Interface::ZwlrVirtualPointerManagerV1 => GlobalAction::Ignore,
            Interface::ZwpVirtualKeyboardManagerV1 => GlobalAction::Ignore,
            _ => GlobalAction::Forward,
        }
    }

    /// The client binds a global.
    pub fn handle_bind(&self, interface: Interface) -> (action: BindAction)
        ensures
            action == bind_action(interface),
    {
        match interface {
            Interface::ZwlrVirtualPointerManagerV1 => BindAction::Pointers,
            Interface::ZwpVirtualKeyboardManagerV1 => BindAction::Keyboards,
            _ => BindAction::Forward,
        }
    }
}

/// What is hidden of the compositor is what is announced in its place, and what is announced is
/// served: a client sees each of these globals once, and ours.
pub proof fn hidden_is_announced_and_served(interface: Interface)
    ensures
        global_action(interface) == GlobalAction::Ignore <==> announced().contains(interface),
        announced().contains(interface) <==> bind_action(interface) != BindAction::Forward,
        announced().no_duplicates(),
{
    assert(announced()[0] == Interface::ZwlrVirtualPointerManagerV1);
    assert(announced()[1] == Interface::ZwpVirtualKeyboardManagerV1);
}

/// Our globals are announced after the request has been passed on, each time that a client asks;
/// the seat is watched before that, and from the first time on only.
pub proof fn globals_come_after_forward(init: bool)
    ensures
        ({
            let steps = registry_steps(init);
            &&& steps.last() == RegistryStep::AnnounceWhenDone
            &&& steps[steps.len() - 2] == RegistryStep::Forward
            &&& steps.contains(RegistryStep::WatchSeat) <==> !init
            &&& !init ==> steps.first() == RegistryStep::WatchSeat
        }),
{
    if !init {
        assert(registry_steps(init)[0] == RegistryStep::WatchSeat);
    }
}

/// The two virtual input managers, and nothing else, are hidden, announced, and served: the pointer
/// manager first, and each by its own kind of object.
pub proof fn virtual_input_is_ours(interface: Interface)
    ensures
        global_action(interface) == GlobalAction::Ignore <==> interface
            == Interface::ZwlrVirtualPointerManagerV1 || interface
            == Interface::ZwpVirtualKeyboardManagerV1,
        bind_action(interface) == BindAction::Pointers <==> interface
            == Interface::ZwlrVirtualPointerManagerV1,
        bind_action(interface) == BindAction::Keyboards <==> interface
            == Interface::ZwpVirtualKeyboardManagerV1,
        announced().len() == 2,
        announced()[0] == Interface::ZwlrVirtualPointerManagerV1,
        announced()[1] == Interface::ZwpVirtualKeyboardManagerV1,
{
}

/// Each request for the registry is passed on once, and answered with our globals once.
pub proof fn registry_is_answered_once(init: bool)
    ensures
        registry_steps(init).no_duplicates(),
        registry_steps(init).len() == if init {
            2int
        } else {
            3
        },
{
}

} // verus!

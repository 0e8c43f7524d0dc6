use wl_uinput_proxy::proxy::{
    synthetic_globals, BindAction, Display, GlobalAction, Interface, Registry, RegistryStep,
};

#[test]
fn seat_is_watched_from_the_first_registry_on() {
    let mut display = Display::new();
    assert_eq!(
        display.handle_get_registry(),
        vec![RegistryStep::WatchSeat, RegistryStep::Forward, RegistryStep::AnnounceWhenDone]
    );
    for _ in 0..2 {
        assert_eq!(
            display.handle_get_registry(),
            vec![RegistryStep::Forward, RegistryStep::AnnounceWhenDone]
        );
    }
}

#[test]
fn globals_of_the_proxy_replace_those_of_the_compositor() {
    let registry = Registry;
    let ours = synthetic_globals();
    assert_eq!(
        ours,
        vec![Interface::ZwlrVirtualPointerManagerV1, Interface::ZwpVirtualKeyboardManagerV1]
    );
    for interface in ours {
        assert_eq!(registry.handle_global(interface), GlobalAction::Ignore);
        assert_ne!(registry.handle_bind(interface), BindAction::Forward);
    }
    for interface in [Interface::WlSeat, Interface::Other] {
        assert_eq!(registry.handle_global(interface), GlobalAction::Forward);
        assert_eq!(registry.handle_bind(interface), BindAction::Forward);
    }
    assert_eq!(registry.handle_bind(Interface::ZwlrVirtualPointerManagerV1), BindAction::Pointers);
    assert_eq!(registry.handle_bind(Interface::ZwpVirtualKeyboardManagerV1), BindAction::Keyboards);
}

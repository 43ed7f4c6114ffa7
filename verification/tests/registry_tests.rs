use rtrs::callback::BoardInterface;
use rtrs::callback::Callback;
use rtrs::callback::CallbackType;
use rtrs::callback::Invocation;

#[test]
fn registry_invoke_unregistered_is_noop() {
    let b = BoardInterface::new();
    assert_eq!(b.callback(Callback::Systick), None);
    assert_eq!(b.callback(Callback::TriggerCrash), None);
    assert_eq!(b.callback(Callback::MicrosecondDelay(5)), None);
    assert_eq!(b.callback(Callback::MicrosecondTickProvider), None);
}

#[test]
fn registry_second_registration_wins() {
    let mut b = BoardInterface::new();
    b.register_callback(CallbackType::Systick(7));
    b.register_callback(CallbackType::Systick(9));
    assert_eq!(
        b.callback(Callback::Systick),
        Some(Invocation { handler: 9, arg: None })
    );
}

#[test]
fn registry_slots_are_independent() {
    let mut b = BoardInterface::new();
    b.register_callback(CallbackType::Systick(1));
    b.register_callback(CallbackType::TriggerCrash(2));
    assert_eq!(
        b.callback(Callback::Systick),
        Some(Invocation { handler: 1, arg: None })
    );
    assert_eq!(
        b.callback(Callback::TriggerCrash),
        Some(Invocation { handler: 2, arg: None })
    );
    assert_eq!(b.callback(Callback::MicrosecondDelay(10)), None);
}

#[test]
fn registry_delay_carries_payload() {
    let mut b = BoardInterface::new();
    b.register_callback(CallbackType::MicrosecondDelay(3));
    assert_eq!(
        b.callback(Callback::MicrosecondDelay(1500)),
        Some(Invocation { handler: 3, arg: Some(1500) })
    );
}

#[test]
fn registry_tick_provider_swap_has_no_payload() {
    let mut b = BoardInterface::new();
    b.register_callback(CallbackType::MicrosecondTickProvider(8));
    assert_eq!(
        b.callback(Callback::MicrosecondTickProvider),
        Some(Invocation { handler: 8, arg: None })
    );
}

use bagua_os::kernel::interrupt::{InterruptController, Irq, PENDING_CAPACITY};

#[test]
fn test_interrupt_controller_timer() {
    let mut ic = InterruptController::new();
    ic.tick();
    assert_eq!(ic.elapsed_ticks(), 1);
    assert_eq!(ic.next_irq(), None);
    ic.enable();
    ic.tick();
    assert_eq!(ic.elapsed_ticks(), 2);
    assert_eq!(ic.next_irq(), Some(Irq::Timer));
    assert_eq!(ic.next_irq(), None);
}

#[test]
fn test_interrupt_fifo_order() {
    let mut ic = InterruptController::new();
    ic.enable();
    ic.trigger(Irq::Keyboard);
    ic.tick();
    ic.trigger(Irq::Keyboard);
    assert_eq!(ic.next_irq(), Some(Irq::Keyboard));
    assert_eq!(ic.next_irq(), Some(Irq::Timer));
    assert_eq!(ic.next_irq(), Some(Irq::Keyboard));
    assert_eq!(ic.next_irq(), None);
}

#[test]
fn test_disabled_controller_ignores_and_holds() {
    let mut ic = InterruptController::new();
    ic.trigger(Irq::Keyboard);
    ic.enable();
    ic.trigger(Irq::Timer);
    ic.disable();
    ic.trigger(Irq::Keyboard);
    assert_eq!(ic.next_irq(), None);
    ic.enable();
    assert_eq!(ic.next_irq(), Some(Irq::Timer));
    assert_eq!(ic.next_irq(), None);
}

#[test]
fn test_pending_queue_drops_when_full() {
    let mut ic = InterruptController::new();
    ic.enable();
    for _ in 0..PENDING_CAPACITY {
        ic.trigger(Irq::Timer);
    }
    ic.trigger(Irq::Keyboard);
    let mut n = 0;
    while let Some(irq) = ic.next_irq() {
        assert_eq!(irq, Irq::Timer);
        n += 1;
    }
    assert_eq!(n, PENDING_CAPACITY);
}

#[test]
fn test_irq_lines() {
    assert_eq!(Irq::Timer.line(), 0);
    assert_eq!(Irq::Keyboard.line(), 1);
}

use rtrs::pin::MockPin;
use rtrs::pulse::PulseSensor;
use rtrs::pulse::PulseSensorInterface;
use rtrs::selftest::CounterTask;
use rtrs::time::delay_us;
use rtrs::time::MicrosecondTickProvider;
use rtrs::time::TimeProvider;

#[test]
fn time_provider_counts_ticks() {
    let mut t = TimeProvider::new();
    assert_eq!(t.now(), 0);
    t.increment();
    t.increment();
    t.increment();
    assert_eq!(t.now(), 3);
}

#[test]
fn time_microsecond_provider_accumulates() {
    let mut p = MicrosecondTickProvider::new(100);
    assert_eq!(p.get_tick(150), 150);
    assert_eq!(p.get_tick(150), 150);
    assert_eq!(p.get_tick(200), 200);
}

#[test]
fn time_microsecond_provider_survives_wraparound() {
    let mut p = MicrosecondTickProvider::new(65530);
    // The 16-bit counter wrapped: 65530 -> 4 is 9 ticks under the
    // counter's wrap rule.
    assert_eq!(p.get_tick(4), 65539);
    assert_eq!(p.get_tick(4), 65539);
}

#[test]
fn time_delay_us_rounds_up_loops() {
    // 100 us at 16 MHz is 1600 cycles; at 3 cycles a loop, 534 loops.
    assert_eq!(delay_us(100, 16_000_000, 3), 534);
    assert_eq!(delay_us(0, 16_000_000, 3), 0);
    assert_eq!(delay_us(1, 1_000_000, 1), 1);
    assert_eq!(delay_us(3, 1_000_000, 2), 2);
}

#[test]
fn time_mock_pin_reports_level_changes() {
    let mut p = MockPin::new();
    assert_eq!(p.state_str(), "LOW");
    let line = p.set_high(10);
    assert_eq!(line, "MockPin(1): Was LOW for 10 ticks".to_string());
    assert_eq!(p.state_str(), "HIGH");
    let line2 = p.set_low(25);
    assert_eq!(line2, "MockPin(0): Was HIGH for 15 ticks".to_string());
    assert_eq!(p.state_str(), "LOW");
}

#[test]
fn time_counter_task_polls_to_completion() {
    let mut c = CounterTask::new(2);
    assert_eq!(c.poll(), None);
    assert_eq!(c.poll(), None);
    assert_eq!(c.poll(), Some(0));
    assert_eq!(c.poll(), Some(0));
}

struct FixedSampler {
    value: u16,
}

impl PulseSensorInterface for FixedSampler {
    fn read(&mut self) -> u16 {
        self.value
    }
}

#[test]
fn time_pulse_sensor_forwards_backend_reads() {
    let mut s = PulseSensor::new(FixedSampler { value: 512 });
    assert_eq!(s.read(), 512);
    assert_eq!(s.read(), 512);
}

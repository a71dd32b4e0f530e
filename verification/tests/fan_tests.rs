use glow_station::fan::Fan;

#[test]
fn test_fan_control() {
    // A 25 kHz fan on chip 0, channel 0: period 40000 ns.
    let fan = Fan::new(0, 0, 25_000);
    let duty = "/sys/class/pwm/pwmchip0/pwm0/duty_cycle";

    let w = fan.set_speed_percent(25);
    assert_eq!(w.path, duty);
    assert_eq!(w.value, "10000");

    let w = fan.set_speed_percent(50);
    assert_eq!(w.path, duty);
    assert_eq!(w.value, "20000");

    let w = fan.set_speed_percent(75);
    assert_eq!(w.path, duty);
    assert_eq!(w.value, "30000");

    let w = fan.on_full();
    assert_eq!(w.path, duty);
    assert_eq!(w.value, "40000");

    let w = fan.off();
    assert_eq!(w.path, duty);
    assert_eq!(w.value, "0");
}

#[test]
fn fan_speed_is_clamped_to_full() {
    let fan = Fan::new(0, 0, 25_000);
    assert_eq!(fan.set_speed_percent(101).value, "40000");
    assert_eq!(fan.set_speed_percent(255).value, "40000");
    assert_eq!(fan.set_speed_percent(100).value, "40000");
}

#[test]
fn fan_duty_cycle_is_clamped_to_period() {
    let fan = Fan::new(0, 0, 25_000);
    assert_eq!(fan.set_duty_cycle(12_345).value, "12345");
    assert_eq!(fan.set_duty_cycle(40_000).value, "40000");
    assert_eq!(fan.set_duty_cycle(50_000).value, "40000");
    assert_eq!(fan.set_duty_cycle(0).value, "0");
}

#[test]
fn fan_period_rounds_down() {
    // 1e9 / 30000 = 33333.33..., so the period is 33333 ns.
    let fan = Fan::new(0, 0, 30_000);
    assert_eq!(fan.on_full().value, "33333");
    assert_eq!(fan.set_speed_percent(33).value, "10999");
    // 1 Hz: a one second period.
    let slow = Fan::new(0, 0, 1);
    assert_eq!(slow.on_full().value, "1000000000");
}

#[test]
fn fan_paths_name_chip_and_channel() {
    let fan = Fan::new(12, 3, 25_000);
    assert_eq!(fan.chip_path(), "/sys/class/pwm/pwmchip12");
    assert_eq!(fan.pwm_path(), "/sys/class/pwm/pwmchip12/pwm3");
    let w = fan.enable();
    assert_eq!(w.path, "/sys/class/pwm/pwmchip12/pwm3/enable");
    assert_eq!(w.value, "1");
    let w = fan.disable();
    assert_eq!(w.path, "/sys/class/pwm/pwmchip12/pwm3/enable");
    assert_eq!(w.value, "0");
    let w = fan.export();
    assert_eq!(w.path, "/sys/class/pwm/pwmchip12/export");
    assert_eq!(w.value, "3");
    let w = fan.unexport(true).unwrap();
    assert_eq!(w.path, "/sys/class/pwm/pwmchip12/unexport");
    assert_eq!(w.value, "3");
    assert!(fan.unexport(false).is_none());
    let w = fan.write_attribute("period", "40000");
    assert_eq!(w.path, "/sys/class/pwm/pwmchip12/pwm3/period");
    assert_eq!(w.value, "40000");
}

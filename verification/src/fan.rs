//! The cooling fan, driven through the Linux PWM sysfs interface. The
//! library computes every file write the fan needs (which sysfs file, what
//! text); performing a write is left to the caller.

use vstd::prelude::*;
use crate::text::{decimal, u64_to_decimal};

verus! {

/// One write to a sysfs file: the text `value` written to the file at `path`.
pub struct PwmWrite {
    pub path: String,
    pub value: String,
}

/// What a [`Fan`] is: its PWM chip, its channel on that chip, and the PWM
/// period in nanoseconds.
pub struct FanView {
    pub chip: u32,
    pub channel: u32,
    pub period_ns: u32,
}

/// A fan on one PWM channel of one PWM chip.
pub struct Fan {
    pwm_chip: u32,
    pwm_channel: u32,
    period_ns: u32,
}

impl View for Fan {
    type V = FanView;

    closed spec fn view(&self) -> FanView {
        FanView { chip: self.pwm_chip, channel: self.pwm_channel, period_ns: self.period_ns }
    }
}

/// The PWM period, in nanoseconds, of a signal at `frequency_hz`.
pub open spec fn period_for(frequency_hz: u32) -> nat {
    (1_000_000_000int / (frequency_hz as int)) as nat
}

/// The duty cycle, in nanoseconds, for `percent` of `period_ns`, with the
/// percentage clamped to 100.
pub open spec fn duty_for_percent(period_ns: nat, percent: nat) -> nat {
    let p = if percent > 100 { 100 } else { percent };
    (period_ns * p) / 100
}

/// A duty cycle clamped to the period.
pub open spec fn clamped_duty(period_ns: nat, duty_ns: nat) -> nat {
    if duty_ns > period_ns { period_ns } else { duty_ns }
}

/// The sysfs directory of PWM chip `chip`.
pub open spec fn chip_dir(chip: nat) -> Seq<char> {
    "/sys/class/pwm/pwmchip"@ + decimal(chip)
}

/// The sysfs directory of channel `channel` of PWM chip `chip`.
pub open spec fn channel_dir(chip: nat, channel: nat) -> Seq<char> {
    chip_dir(chip) + "/pwm"@ + decimal(channel)
}

/// The sysfs file of attribute `attribute` of that channel.
pub open spec fn attribute_file(chip: nat, channel: nat, attribute: Seq<char>) -> Seq<char> {
    channel_dir(chip, channel) + "/"@ + attribute
}

impl PwmWrite {
    /// Whether this is the write of `value` to `path`.
    pub open spec fn is(&self, path: Seq<char>, value: Seq<char>) -> bool {
        self.path@ == path && self.value@ == value
    }
}

impl Fan {
    /// The fan on channel `pwm_channel` of chip `pwm_chip`, driven at
    /// `frequency_hz` (25000 for a 25 kHz PWM fan): the period is
    /// `1_000_000_000 / frequency_hz` nanoseconds. Nothing is written.
    pub fn new(pwm_chip: u32, pwm_channel: u32, frequency_hz: u32) -> (fan: Fan)
        requires
            frequency_hz > 0,
        ensures
            fan@.chip == pwm_chip,
            fan@.channel == pwm_channel,
            fan@.period_ns == period_for(frequency_hz),
    {
        Fan { pwm_chip, pwm_channel, period_ns: 1_000_000_000u32 / frequency_hz }
    }

    /// The sysfs directory of this fan's PWM channel.
    pub fn pwm_path(&self) -> (p: String)
        ensures
            p@ == channel_dir(self@.chip as nat, self@.channel as nat),
    {
        let mut p = self.chip_path();
        p.append("/pwm");
        let n = u64_to_decimal(self.pwm_channel as u64);
        p.append(n.as_str());
        p
    }

    /// The sysfs directory of this fan's PWM chip.
    pub fn chip_path(&self) -> (p: String)
        ensures
            p@ == chip_dir(self@.chip as nat),
    {
        let mut p = String::new();
        p.append("/sys/class/pwm/pwmchip");
        let n = u64_to_decimal(self.pwm_chip as u64);
        p.append(n.as_str());
        p
    }

    /// The write of `value` to this channel's attribute file `attribute`.
    pub fn write_attribute(&self, attribute: &str, value: &str) -> (w: PwmWrite)
        ensures
            w.is(attribute_file(self@.chip as nat, self@.channel as nat, attribute@), value@),
    {
        let mut path = self.pwm_path();
        path.append("/");
        path.append(attribute);
        PwmWrite { path, value: String::from_str(value) }
    }

    /// The write that sets the fan speed to `percent` of full (clamped to
    /// 100): duty cycle `period_ns * percent / 100`.
    pub fn set_speed_percent(&self, percent: u8) -> (w: PwmWrite)
        ensures
            w.is(
                attribute_file(self@.chip as nat, self@.channel as nat, "duty_cycle"@),
                decimal(duty_for_percent(self@.period_ns as nat, percent as nat)),
            ),
    {
        let p: u64 = if percent > 100 { 100 } else { percent as u64 };
        let period = self.period_ns as u64;
        assert(period * p <= period * 100) by (nonlinear_arith)
            requires p <= 100;
        assert((period * p) / 100 <= period) by (nonlinear_arith)
            requires period * p <= period * 100;
        let duty = (period * p / 100) as u32;
        let value = u64_to_decimal(duty as u64);
        let mut path = self.pwm_path();
        path.append("/");
        path.append("duty_cycle");
        PwmWrite { path, value }
    }

    /// The write that sets the raw duty cycle, clamped to the period.
    pub fn set_duty_cycle(&self, duty_cycle_ns: u32) -> (w: PwmWrite)
        ensures
            w.is(
                attribute_file(self@.chip as nat, self@.channel as nat, "duty_cycle"@),
                decimal(clamped_duty(self@.period_ns as nat, duty_cycle_ns as nat)),
            ),
    {
        let duty = if duty_cycle_ns > self.period_ns { self.period_ns } else { duty_cycle_ns };
        let value = u64_to_decimal(duty as u64);
        let mut path = self.pwm_path();
        path.append("/");
        path.append("duty_cycle");
        PwmWrite { path, value }
    }

    /// The write that stops the fan: speed 0 %.
    pub fn off(&self) -> (w: PwmWrite)
        ensures
            w.is(
                attribute_file(self@.chip as nat, self@.channel as nat, "duty_cycle"@),
                decimal(duty_for_percent(self@.period_ns as nat, 0)),
            ),
    {
        self.set_speed_percent(0)
    }

    /// The write that runs the fan at full speed: speed 100 %.
    pub fn on_full(&self) -> (w: PwmWrite)
        ensures
            w.is(
                attribute_file(self@.chip as nat, self@.channel as nat, "duty_cycle"@),
                decimal(duty_for_percent(self@.period_ns as nat, 100)),
            ),
    {
        self.set_speed_percent(100)
    }

    /// The write that enables the PWM output: `1` to `enable`.
    pub fn enable(&self) -> (w: PwmWrite)
        ensures
            w.is(attribute_file(self@.chip as nat, self@.channel as nat, "enable"@), "1"@),
    {
        self.write_attribute("enable", "1")
    }

    /// The write that disables the PWM output: `0` to `enable`.
    pub fn disable(&self) -> (w: PwmWrite)
        ensures
            w.is(attribute_file(self@.chip as nat, self@.channel as nat, "enable"@), "0"@),
    {
        self.write_attribute("enable", "0")
    }

    /// The write that exports this channel: its number to the chip's
    /// `export` file.
    pub fn export(&self) -> (w: PwmWrite)
        ensures
            w.is(chip_dir(self@.chip as nat) + "/export"@, decimal(self@.channel as nat)),
    {
        let mut path = self.chip_path();
        path.append("/export");
        PwmWrite { path, value: u64_to_decimal(self.pwm_channel as u64) }
    }

    /// The write that unexports this channel, given whether it is exported
    /// (whether its directory exists): its number to the chip's `unexport`
    /// file where it is, and nothing where it is not.
    pub fn unexport(&self, exported: bool) -> (w: Option<PwmWrite>)
        ensures
            !exported ==> w is None,
            exported ==> (w matches Some(u) && u.is(
                chip_dir(self@.chip as nat) + "/unexport"@,
                decimal(self@.channel as nat),
            )),
    {
        if !exported {
            return None;
        }
        let mut path = self.chip_path();
        path.append("/unexport");
        Some(PwmWrite { path, value: u64_to_decimal(self.pwm_channel as u64) })
    }
}

// ------------------------------------------------------------------- laws

/// The duty cycle for a percentage never exceeds the period, grows with the
/// percentage, is the whole period from 100 % up and nothing at 0 %.
pub proof fn lemma_duty_for_percent(period_ns: nat, p: nat, q: nat)
    requires
        p <= q,
    ensures
        duty_for_percent(period_ns, p) <= period_ns,
        duty_for_percent(period_ns, p) <= duty_for_percent(period_ns, q),
        q >= 100 ==> duty_for_percent(period_ns, q) == period_ns,
        duty_for_percent(period_ns, 0) == 0,
{
    let pc: nat = if p > 100 { 100 } else { p };
    let qc: nat = if q > 100 { 100 } else { q };
    assert(period_ns * pc <= period_ns * 100) by (nonlinear_arith)
        requires
            pc <= 100,
    ;
    assert(period_ns * pc <= period_ns * qc) by (nonlinear_arith)
        requires
            pc <= qc,
    ;
    assert((period_ns * pc) / 100 <= (period_ns * qc) / 100) by (nonlinear_arith)
        requires
            period_ns * pc <= period_ns * qc,
    ;
    assert((period_ns * pc) / 100 <= period_ns) by (nonlinear_arith)
        requires
            period_ns * pc <= period_ns * 100,
    ;
    assert((period_ns * 100) / 100 == period_ns) by (nonlinear_arith);
    assert(period_ns * 0 == 0);
}

/// Full speed writes the same duty cycle as the raw duty cycle of one whole
/// period, and off the same as a raw duty cycle of zero; a raw duty cycle
/// is clamped to the period.
pub proof fn lemma_full_and_off_are_duty_cycles(period_ns: nat, duty_ns: nat)
    ensures
        duty_for_percent(period_ns, 100) == clamped_duty(period_ns, period_ns),
        duty_for_percent(period_ns, 0) == clamped_duty(period_ns, 0),
        clamped_duty(period_ns, duty_ns) <= period_ns,
        duty_ns <= period_ns ==> clamped_duty(period_ns, duty_ns) == duty_ns,
{
    lemma_duty_for_percent(period_ns, 0, 100);
}

/// The duty cycle for a percentage up to 100 is that share of the period,
/// rounded down: `percent` hundredths of the period, less than one
/// hundredth short of it, so `period_ns * percent / 100` exactly; above
/// 100 it is the whole period.
pub proof fn lemma_duty_is_share_of_period(period_ns: nat, percent: nat)
    ensures
        percent <= 100 ==> duty_for_percent(period_ns, percent) * 100 <= period_ns * percent,
        percent <= 100 ==> period_ns * percent < duty_for_percent(period_ns, percent) * 100
            + 100,
        percent > 100 ==> duty_for_percent(period_ns, percent) == period_ns,
{
    let q = duty_for_percent(period_ns, percent);
    if percent <= 100 {
        assert(q == (period_ns * percent) / 100);
        assert(q * 100 <= period_ns * percent && period_ns * percent < q * 100 + 100) by (
        nonlinear_arith)
            requires
                q == (period_ns * percent) / 100,
        ;
    } else {
        lemma_duty_for_percent(period_ns, percent, percent);
    }
}

} // verus!

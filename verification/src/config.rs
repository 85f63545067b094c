use vstd::prelude::*;

verus! {

/// One raw schedule entry as it arrives from configuration: a time-of-day
/// string such as `"08:00"` and a desired level in percent.
#[derive(Debug, Clone)]
pub struct ScheduleItem {
    pub time: String,
    pub volume: u8,
}

/// The whole configuration a schedule is built from: the uniform pre-ramp
/// duration in seconds and the list of raw entries.
#[derive(Debug, Clone)]
pub struct AppConfig {
    pub ramp_duration_seconds: u64,
    pub schedule: Vec<ScheduleItem>,
}

/// The built-in configuration used when none can be loaded: a one-minute
/// pre-ramp with two morning targets, 54 percent at 08:00 and 23 percent
/// at 09:00.
pub fn default_config() -> (r: AppConfig)
    ensures
        r.ramp_duration_seconds == 60,
        r.schedule@.len() == 2,
        r.schedule@[0].time@ == "08:00"@,
        r.schedule@[0].volume == 54,
        r.schedule@[1].time@ == "09:00"@,
        r.schedule@[1].volume == 23,
{
    let mut schedule: Vec<ScheduleItem> = Vec::new();
    schedule.push(ScheduleItem { time: "08:00".to_owned(), volume: 54 });
    schedule.push(ScheduleItem { time: "09:00".to_owned(), volume: 23 });
    AppConfig { ramp_duration_seconds: 60, schedule }
}

} // verus!

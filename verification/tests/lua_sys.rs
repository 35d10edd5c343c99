use argus_manager::float::{F32, F64};
use argus_manager::lua::sys::{
    cpu_freq, cpu_freq_path, file_text, frame_count, gpu_busy, gpu_freq, meminfo_table, parse_meminfo,
    parse_meminfo_value, thermal_zone_path, zone_temperature, FpsState,
};

fn d(x: f64) -> F64 {
    F64 { bits: x.to_bits() }
}

#[test]
fn meminfo_is_read() {
    let content = "MemTotal:       16384256 kB\nMemFree:          123456 kB\n\
                   MemAvailable:    8192000 kB\nBuffers: 1 kB\n";
    assert_eq!(parse_meminfo(Some(content)), (16384256, 8192000, 123456));
    assert_eq!(parse_meminfo(Some("MemFree: x kB\nMemTotal:\n MemAvailable: 5\n")), (0, 0, 0));
    assert_eq!(parse_meminfo(Some("MemFree: 1\nMemFree: 2")), (0, 0, 2));
    assert_eq!(parse_meminfo(None), (0, 0, 0));
    assert_eq!(parse_meminfo_value("  12345 kB"), 12345);
    assert_eq!(parse_meminfo_value("kB"), 0);
    assert_eq!(parse_meminfo_value(""), 0);
}

#[test]
fn temperatures_are_given_in_degrees() {
    let t = |c: Option<&str>| f64::from_bits(zone_temperature(c).bits);
    assert_eq!(t(Some("42500\n")), 42.5);
    assert_eq!(t(Some(" -1000.5 ")), -1000.5 / 1000.0);
    assert_eq!(t(Some("hot")), -1.0);
    assert_eq!(t(None), -1.0);
    assert_eq!(thermal_zone_path(12), "/sys/class/thermal/thermal_zone12/temp");
}

#[test]
fn gpu_readings_are_whole_numbers() {
    assert_eq!(gpu_busy(Some(d(42.5))), 43);
    assert_eq!(gpu_busy(Some(d(0.4))), 0);
    assert_eq!(gpu_busy(Some(d(f64::NAN))), 0);
    assert_eq!(gpu_busy(None), -1);
    assert_eq!(gpu_freq(Some(585_000_000)), 585_000_000);
    assert_eq!(gpu_freq(Some(u64::MAX)), u64::MAX as i64);
    assert_eq!(gpu_freq(Some(1 << 63)), i64::MIN);
    assert_eq!(gpu_freq(None), -1);
}

#[test]
fn processor_frequencies_are_read() {
    assert_eq!(cpu_freq(Some("1804800\n")), 1804800);
    assert_eq!(cpu_freq(Some("-5")), -5);
    assert_eq!(cpu_freq(Some("fast")), -1);
    assert_eq!(cpu_freq(None), -1);
    assert_eq!(cpu_freq_path(7), "/sys/devices/system/cpu/cpu7/cpufreq/scaling_cur_freq");
}

#[test]
fn files_are_read_without_their_ends() {
    assert_eq!(file_text(Some(" a b \n")), "a b");
    assert_eq!(file_text(Some(" \n")), "");
    assert_eq!(file_text(None), "");
}

#[test]
fn the_frame_number_is_found() {
    let dump = "Background for SurfaceView[com.app/Main]\n no counter\n\n\n\n\nframe=1\n\
                x SurfaceView[com.app/Main](BLAST)\n queued, frame=123, more\nframe=9\n";
    assert_eq!(frame_count(dump, "com.app"), Some(123));
    assert_eq!(frame_count(dump, "com.other"), None);
    assert_eq!(frame_count("SurfaceView[p frame=7", "p"), Some(7));
    // A line without digits after the key, or with too many, gives way to the next.
    assert_eq!(frame_count("SurfaceView[p\nframe=x\nframe=8", "p"), Some(8));
    assert_eq!(frame_count("SurfaceView[p\nframe=99999999999999999999\nframe=8", "p"), Some(8));
    // Only the line of the marker and the four after it count.
    assert_eq!(frame_count("SurfaceView[p\n1\n2\n3\nframe=4", "p"), Some(4));
    assert_eq!(frame_count("SurfaceView[p\n1\n2\n3\n4\nframe=5", "p"), None);
    assert_eq!(frame_count("", ""), None);
}

#[test]
fn frames_per_second_are_measured_between_calls() {
    let dt = |x: f32| F32 { bits: x.to_bits() };
    let mut fps = FpsState::new();
    let first = fps.measure(100, dt(5.0));
    assert!(first.fps.is_none() && first.restart);
    let soon = fps.measure(110, dt(0.05));
    assert!(soon.fps.is_none() && !soon.restart);
    assert_eq!(fps.prev_frame, 100);
    let next = fps.measure(130, dt(0.5));
    assert_eq!(next.fps.map(|x| f32::from_bits(x.bits)), Some(60.0));
    assert!(next.restart);
    let back = fps.measure(5, dt(1.0));
    assert_eq!(back.fps.map(|x| f32::from_bits(x.bits)), Some(0.0));
    assert_eq!(fps.prev_frame, 5);
}

#[test]
fn meminfo_is_handed_over_as_a_table() {
    let lua = mlua::Lua::new();
    let table = meminfo_table(&lua, Some("MemTotal: 7 kB\nMemFree: 2 kB\nMemAvailable: 5 kB\n")).unwrap();
    assert_eq!(table.get::<u64>("total").unwrap(), 7);
    assert_eq!(table.get::<u64>("available").unwrap(), 5);
    assert_eq!(table.get::<u64>("free").unwrap(), 2);
    assert_eq!(table.pairs::<String, u64>().count(), 3);
    let empty = meminfo_table(&lua, None).unwrap();
    assert_eq!(empty.get::<u64>("total").unwrap(), 0);
}

#[test]
fn temperatures_may_be_named() {
    let t = |c: &str| f64::from_bits(zone_temperature(Some(c)).bits);
    assert_eq!(t("inf"), f64::INFINITY);
    assert_eq!(t("-Infinity\n"), f64::NEG_INFINITY);
    assert!(t("NaN").is_nan());
}

#[test]
fn calls_too_soon_do_not_count() {
    let dt = |x: f32| F32 { bits: x.to_bits() };
    let mut fps = FpsState::new();
    fps.measure(100, dt(0.0));
    for frame in 101..105 {
        assert!(fps.measure(frame, dt(0.09)).fps.is_none());
    }
    assert_eq!(fps.measure(130, dt(1.0)).fps.map(|x| f32::from_bits(x.bits)), Some(30.0));
}

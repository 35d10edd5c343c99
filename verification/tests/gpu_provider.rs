use argus_manager::config::GpuBackend;
use argus_manager::float::F64;
use argus_manager::monitor::gpu_provider::{
    build_provider, detect_backend, devfreq_dir, discover_jetson_freq_path, parse_gr3d_freq,
    parse_util_pct, plan_provider, provider_after_start, to_percentage, GpuProvider,
    GpuTelemetryProvider, JetsonGpuProvider, NullGpuProvider, ProviderPlan, SysfsGpuProvider,
};

fn pct(x: f64) -> Option<F64> {
    Some(F64 { bits: x.to_bits() })
}

/// No file can be read.
fn unreadable(_: &String) -> Option<String> {
    None
}

/// A file system with one file.
fn one_file(path: &str, content: &str) -> impl Fn(&String) -> Option<String> {
    let path = path.to_string();
    let content = content.to_string();
    move |p: &String| if *p == path { Some(content.clone()) } else { None }
}

// ---- parse_gr3d_freq ----
#[test]
fn parses_gr3d_freq_basic() {
    let line = "04-23-2026 RAM 6421/30991MB CPU [0%@2265] EMC_FREQ 0% GR3D_FREQ 42% GPU@37C";
    assert_eq!(parse_gr3d_freq(line), Some(42));
}

#[test]
fn parses_gr3d_freq_edge_values() {
    assert_eq!(parse_gr3d_freq("... GR3D_FREQ 0% ..."), Some(0));
    assert_eq!(parse_gr3d_freq("... GR3D_FREQ 100% ..."), Some(100));
}

#[test]
fn parse_gr3d_freq_clamps_over_100() {
    assert_eq!(parse_gr3d_freq("... GR3D_FREQ 150% ..."), Some(100));
}

#[test]
fn parse_gr3d_freq_missing_returns_none() {
    assert_eq!(parse_gr3d_freq("RAM 1/2 CPU 5%"), None);
}

#[test]
fn gr3d_freq_needs_a_number_before_a_percent_sign() {
    assert_eq!(parse_gr3d_freq("GR3D_FREQ 42"), None);
    assert_eq!(parse_gr3d_freq("GR3D_FREQ x%"), None);
    assert_eq!(parse_gr3d_freq("GR3D_FREQ 42@921%"), None);
    assert_eq!(parse_gr3d_freq("GR3D_FREQ  7 %"), Some(7));
    assert_eq!(parse_gr3d_freq("GR3D_FREQ 4294967296%"), None);
}

// ---- parse_util_pct / sysfs utilization ----
#[test]
fn parses_a_utilization_reading_that_carries_its_unit() {
    assert_eq!(parse_util_pct("90 %\n"), pct(90.0));
    assert_eq!(parse_util_pct("0 %\n"), pct(0.0));
    assert_eq!(parse_util_pct("90%"), pct(90.0));
    assert_eq!(parse_util_pct("89\n"), pct(89.0));
}

#[test]
fn a_reading_with_no_leading_number_is_not_a_utilization() {
    assert_eq!(parse_util_pct("N/A\n"), None);
    assert_eq!(parse_util_pct(""), None);
    assert_eq!(parse_util_pct("%\n"), None);
}

#[test]
fn a_utilization_may_have_a_fraction() {
    assert_eq!(parse_util_pct("12.75 %"), pct(12.75));
    assert_eq!(parse_util_pct("1e2"), pct(100.0));
    assert_eq!(to_percentage(parse_util_pct("-3")), pct(0.0));
}

#[test]
fn the_sysfs_provider_reads_a_percentage_written_with_a_unit() {
    let mut p = SysfsGpuProvider::with_custom_util("/t/gpu_busy_percentage".to_string());
    let read = one_file("/t/gpu_busy_percentage", "90 %\n");
    assert_eq!(p.util_pct(&read), pct(90.0));
    assert_eq!(p.describe(), "sysfs(custom=/t/gpu_busy_percentage)");
}

#[test]
fn the_galaxy_s25_kgsl_class_path_is_a_utilization_candidate() {
    let there = |p: &String| p == "/t/class/kgsl/kgsl-3d0/devfreq/gpu_load";
    assert!(matches!(detect_backend("/t", &vec![], &there), GpuBackend::Sysfs));
}

#[test]
fn the_frequency_falls_back_to_devfreq_when_gpuclk_is_unreadable() {
    let mut p = SysfsGpuProvider::with_defaults();
    p.freq_paths = vec!["/t/gpuclk".to_string(), "/t/cur_freq".to_string()];
    assert_eq!(p.freq_hz(&one_file("/t/cur_freq", "1200000000\n")), Some(1_200_000_000));
}

// ---- detect_backend ----
#[test]
fn detect_prefers_jetson_when_gv11b_devfreq_present() {
    let names = vec!["17000000.gv11b".to_string()];
    assert!(matches!(detect_backend("/t", &names, &|_: &String| true), GpuBackend::Jetson));
    let other = vec!["soc:cpu".to_string(), "17000000.ga10b".to_string()];
    assert!(matches!(detect_backend("/t", &other, &|_: &String| false), GpuBackend::Jetson));
}

#[test]
fn detect_falls_back_to_sysfs_when_adreno_candidate_exists() {
    let there = |p: &String| p == "/t/kernel/gpu/gpu_busy_percentage";
    assert!(matches!(detect_backend("/t", &vec![], &there), GpuBackend::Sysfs));
}

#[test]
fn detect_returns_null_when_nothing_present() {
    let names = vec!["soc:cpu".to_string()];
    assert!(matches!(detect_backend("/t", &names, &|_: &String| false), GpuBackend::Null));
}

// ---- SysfsGpuProvider ----
#[test]
fn sysfs_provider_reads_util_from_file() {
    let mut p = SysfsGpuProvider {
        util_paths: vec!["/t/util".to_string()],
        freq_paths: vec![],
        desc: "t".into(),
    };
    assert_eq!(p.util_pct(&one_file("/t/util", "67\n")), pct(67.0));
}

#[test]
fn sysfs_provider_clamps_out_of_range() {
    let mut p = SysfsGpuProvider {
        util_paths: vec!["/t/util".to_string()],
        freq_paths: vec![],
        desc: "t".into(),
    };
    assert_eq!(p.util_pct(&one_file("/t/util", "150\n")), pct(100.0));
}

#[test]
fn sysfs_provider_returns_none_when_no_path_matches() {
    let mut p = SysfsGpuProvider {
        util_paths: vec!["/nonexistent/gpu_busy".into()],
        freq_paths: vec![],
        desc: "t".into(),
    };
    assert_eq!(p.util_pct(&unreadable), None);
}

#[test]
fn sysfs_provider_reads_freq_when_present() {
    let mut p = SysfsGpuProvider {
        util_paths: vec![],
        freq_paths: vec!["/t/freq".to_string()],
        desc: "t".into(),
    };
    assert_eq!(p.freq_hz(&one_file("/t/freq", "585000000\n")), Some(585000000));
}

#[test]
fn sysfs_provider_freq_none_when_absent() {
    let mut p = SysfsGpuProvider {
        util_paths: vec![],
        freq_paths: vec!["/nonexistent/freq".into()],
        desc: "t".into(),
    };
    assert_eq!(p.freq_hz(&unreadable), None);
}

#[test]
fn sysfs_provider_goes_on_where_a_file_gives_nothing() {
    let mut p = SysfsGpuProvider {
        util_paths: vec!["/a".to_string(), "/b".to_string(), "/c".to_string()],
        freq_paths: vec![],
        desc: "t".into(),
    };
    let read = |path: &String| match path.as_str() {
        "/a" => None,
        "/b" => Some("N/A\n".to_string()),
        _ => Some("33".to_string()),
    };
    assert_eq!(p.util_pct(&read), pct(33.0));
    assert_eq!(p.freq_hz(&read), None);
    assert_eq!(p.describe(), "t");
}

#[test]
fn the_known_files() {
    let p = SysfsGpuProvider::with_defaults();
    assert_eq!(p.util_paths.len(), 5);
    assert_eq!(p.util_paths[0], "/sys/class/kgsl/kgsl-3d0/devfreq/gpu_load");
    assert_eq!(p.util_paths[4], "/sys/class/misc/mali0/device/utilization");
    assert_eq!(
        p.freq_paths,
        vec!["/sys/class/kgsl/kgsl-3d0/gpuclk", "/sys/class/kgsl/kgsl-3d0/devfreq/cur_freq"]
    );
    assert_eq!(p.desc, "sysfs(adreno|mali)");
}

// ---- NullGpuProvider ----
#[test]
fn null_provider_always_none() {
    let mut p = NullGpuProvider;
    assert_eq!(p.util_pct(&unreadable), None);
    assert_eq!(p.freq_hz(&unreadable), None);
}

// ---- JetsonGpuProvider ----
#[test]
fn jetson_provider_parses_gr3d_line() {
    let mut p = JetsonGpuProvider::new_with_source(None, "test");
    assert_eq!(p.util_pct(&unreadable), None);
    assert!(p.take_line(Some("RAM 1/2 CPU [0%] GR3D_FREQ 42% GPU@37C")));
    assert_eq!(p.util_pct(&unreadable), pct(42.0));
    assert_eq!(p.freq_hz(&unreadable), None);
    assert!(p.take_line(Some("")));
    assert_eq!(p.util_pct(&unreadable), pct(42.0));
    assert!(!p.take_line(None));
}

#[test]
fn jetson_provider_ignores_malformed_lines() {
    let mut p = JetsonGpuProvider::new_with_source(None, "test");
    for line in ["no match here", "also no", "\n"] {
        assert!(p.take_line(Some(line)));
    }
    assert_eq!(p.util_pct(&unreadable), None);
}

#[test]
fn jetson_provider_reads_freq_file() {
    let mut p = JetsonGpuProvider::new_with_source(Some("/t/cur_freq".to_string()), "test");
    assert_eq!(p.freq_hz(&one_file("/t/cur_freq", "1377000000\n")), Some(1377000000));
}

#[test]
fn jetson_freq_only_provider() {
    let mut p = JetsonGpuProvider::freq_only("/t/cur_freq".to_string());
    assert_eq!(p.util_pct(&unreadable), None);
    assert_eq!(p.freq_hz(&one_file("/t/cur_freq", "828750000\n")), Some(828750000));
    assert!(p.take_line(Some("GR3D_FREQ 10%")));
    assert_eq!(p.util_pct(&unreadable), None);
}

#[test]
fn discover_jetson_freq_path_finds_gv11b() {
    let names = vec!["17000000.gv11b".to_string()];
    assert_eq!(
        discover_jetson_freq_path("/t", &names),
        Some("/t/class/devfreq/17000000.gv11b/cur_freq".to_string())
    );
    assert_eq!(devfreq_dir("/t"), "/t/class/devfreq");
}

#[test]
fn discover_jetson_freq_path_returns_none_when_no_devfreq() {
    assert_eq!(discover_jetson_freq_path("/t", &vec![]), None);
}

// ---- plans ----
#[test]
fn backends_are_planned() {
    let ready = |b: &GpuBackend| match plan_provider(b, None) {
        ProviderPlan::Ready(p) => p.describe().to_string(),
        ProviderPlan::Start { tegrastats_bin, .. } => tegrastats_bin,
    };
    assert_eq!(ready(&GpuBackend::Null), "null");
    assert_eq!(ready(&GpuBackend::Sysfs), "sysfs(adreno|mali)");
    assert_eq!(ready(&GpuBackend::CustomSysfs { path: "/x".to_string() }), "sysfs(custom=/x)");
    assert_eq!(ready(&GpuBackend::Jetson), "tegrastats");
    let explicit = GpuBackend::JetsonExplicit {
        freq_path: "/f".to_string(),
        tegrastats_bin: Some("/bin/t".to_string()),
    };
    assert_eq!(ready(&explicit), "/bin/t");
}

#[test]
fn a_backend_left_open_is_detected() {
    let names = vec!["17000000.gv11b".to_string()];
    match build_provider(&GpuBackend::Auto, &names, &|_: &String| false) {
        ProviderPlan::Start { freq_path, tegrastats_bin } => {
            assert_eq!(freq_path, Some("/sys/class/devfreq/17000000.gv11b/cur_freq".to_string()));
            assert_eq!(tegrastats_bin, "tegrastats");
        }
        _ => panic!("not a Jetson"),
    }
    let there = |p: &String| p == "/sys/class/misc/mali0/device/utilization";
    match build_provider(&GpuBackend::Auto, &vec![], &there) {
        ProviderPlan::Ready(GpuProvider::Sysfs(p)) => assert_eq!(p.util_paths.len(), 5),
        _ => panic!("not sysfs"),
    }
    match build_provider(&GpuBackend::Null, &names, &there) {
        ProviderPlan::Ready(GpuProvider::Null(_)) => {}
        _ => panic!("not null"),
    }
}

#[test]
fn without_tegrastats_the_frequency_is_left() {
    let mut started = provider_after_start(None, true);
    assert_eq!(started.describe(), "jetson(gv11b+tegrastats)");
    assert_eq!(started.util_pct(&unreadable), None);
    let mut only = provider_after_start(Some("/f".to_string()), false);
    assert_eq!(only.describe(), "jetson(gv11b,freq-only)");
    assert_eq!(only.freq_hz(&one_file("/f", "5")), Some(5));
    assert_eq!(provider_after_start(None, false).describe(), "null");
}

#[test]
fn what_is_not_a_number_is_no_utilization() {
    assert!(parse_util_pct("nan").unwrap().is_nan());
    assert_eq!(to_percentage(parse_util_pct("NaN %")), None);
    assert_eq!(to_percentage(parse_util_pct("-inf")), pct(0.0));
    assert_eq!(to_percentage(parse_util_pct("+Infinity")), pct(100.0));
    for text in ["infinit", "na n", "-", "+", ".", "e", "--inf", "busy"] {
        assert_eq!(to_percentage(parse_util_pct(text)), None, "{text}");
    }
    let mut p = SysfsGpuProvider {
        util_paths: vec!["/a".to_string(), "/b".to_string()],
        freq_paths: vec![],
        desc: "t".into(),
    };
    let read = |path: &String| Some(if path == "/a" { "nan" } else { "12" }.to_string());
    assert_eq!(p.util_pct(&read), pct(12.0));
    assert_eq!(p.util_pct(&one_file("/a", "nan\n")), None);
}

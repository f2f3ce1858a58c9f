use std::time::Duration;
use the_dev_terminal_core::config::{CursorStyle, GeneralConfig, KeybindingsConfig, PerformanceConfig, ThemeConfig};
use the_dev_terminal_core::perf::{PerfMonitor, PerfTimer, MAX_SAMPLES};
use the_dev_terminal_core::text_renderer::TextRenderer;

#[test]
fn general_config_defaults() {
    let g = GeneralConfig::default();
    assert_eq!(g.shell, "/bin/zsh");
    assert!(g.shell_args.is_empty());
    assert_eq!(g.scrollback_lines, 10000);
    assert!(g.mouse_reports && g.clipboard_access && g.bracketed_paste);
    let g = GeneralConfig::with_shell(Some("/bin/bash".to_string()));
    assert_eq!(g.shell, "/bin/bash");
}

#[test]
fn other_config_defaults() {
    assert_eq!(CursorStyle::default(), CursorStyle::Block);
    let t = ThemeConfig::default();
    assert_eq!(t.name, "Default Dark");
    assert_eq!(t.red, "#cd3131");
    assert_eq!(t.bright_white, "#ffffff");
    let k = KeybindingsConfig::default();
    assert_eq!(k.copy, "cmd+c");
    assert_eq!(k.clear_scrollback, "cmd+k");
    let p = PerformanceConfig::default();
    assert_eq!((p.max_fps, p.idle_fps), (120, 30));
    assert!(p.gpu_acceleration && p.cache_glyphs && p.batch_rendering);
}

#[test]
fn monitor_records_only_when_enabled() {
    let mut m = PerfMonitor::new();
    assert!(!m.is_enabled());
    m.record_frame(Duration::from_millis(5));
    assert!(m.frame_times().is_empty());
    m.set_enabled(true);
    m.record_frame(Duration::from_millis(5));
    m.record_input_latency(Duration::from_millis(1));
    m.record_render(Duration::from_millis(2));
    assert_eq!(m.frame_times(), vec![Duration::from_millis(5)]);
    assert_eq!(m.input_latencies(), vec![Duration::from_millis(1)]);
    assert_eq!(m.render_times(), vec![Duration::from_millis(2)]);
}

#[test]
fn monitor_keeps_newest_samples() {
    let mut m = PerfMonitor::new();
    m.set_enabled(true);
    for i in 0..(MAX_SAMPLES as u64 + 5) {
        m.record_frame(Duration::from_millis(i));
    }
    let f = m.frame_times();
    assert_eq!(f.len(), MAX_SAMPLES);
    assert_eq!(f[0], Duration::from_millis(5));
    assert_eq!(*f.last().unwrap(), Duration::from_millis(MAX_SAMPLES as u64 + 4));
}

#[test]
fn timer_measures_and_keeps_name() {
    let t = PerfTimer::new("render");
    assert_eq!(t.label(), "render");
    let a = t.elapsed();
    let b = t.elapsed();
    assert!(b >= a);
}

#[test]
fn text_renderer_viewport() {
    let mut r = TextRenderer::new();
    assert_eq!((r.viewport_width, r.viewport_height), (800, 600));
    r.update_viewport(1024, 768);
    assert_eq!((r.viewport_width, r.viewport_height), (1024, 768));
}

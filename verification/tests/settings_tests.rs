use maat_graphics::settings::{setting_key_of, settings_text_is_readable, SettingKey, Settings};

fn text_of(bytes: &[u8]) -> String {
    String::from_utf8(bytes.to_vec()).unwrap()
}

#[test]
fn initial_settings_values() {
    let s = Settings::initial();
    assert!(s.vsync_enabled());
    assert!(!s.triple_buffer_enabled());
    assert_eq!(s.get_texture_msaa(), 1);
    assert_eq!(s.get_model_msaa(), 1);
    assert!(!s.is_fullscreen());
    assert!(s.is_borderless());
    assert_eq!(s.get_minimum_resolution(), [800, 640]);
    assert_eq!(s.max_monitor_resolution(), [1920, 1080]);
    assert_eq!(s.get_resolution(), [1280, 720]);
    assert!(!s.is_dpi_forced());
    assert_eq!(s.dpi_text(), b"1");
    assert_eq!(s.get_monitor_idx(), 0);
}

#[test]
fn default_file_text() {
    let text = Settings::default_text();
    assert_eq!(
        text_of(&text),
        "Resolution 1280 720\nMaxMonitorResolution 1920 1080\nFullscreen False\nBorderless True\nMonitor 0\nVsync True\nTripleBuffer False\nTextureMsaa 2\nModelMsaa 2\nForceDpi False\nDpi 1\n"
    );
}

#[test]
fn saved_text_of_changed_settings() {
    let mut s = Settings::initial();
    s.set_resolution(1920, 1080);
    s.set_vsync(false);
    s.enable_fullscreen(true);
    s.set_texture_msaa(4);
    s.set_model_msaa(8);
    s.set_max_monitor_resolution(2560, 1440);
    s._enable_dpi(true);
    s._set_dpi(b"1.5".to_vec());
    assert_eq!(
        text_of(&s.to_text()),
        "Resolution 1920 1080\nMaxMonitorResolution 2560 1440\nFullscreen True\nBorderless True\nMonitor 0\nVsync False\nTripleBuffer False\nTextureMsaa 4\nModelMsaa 8\nForceDpi True\nDpi 1.5\n"
    );
}

#[test]
fn load_reads_every_setting() {
    let text = b"Resolution 1024 768\nMaxMonitorResolution 3840 2160\nFullscreen True\nBorderless False\nMonitor 2\nVsync False\nTripleBuffer True\nTextureMsaa 4\nModelMsaa 8\nForceDpi True\nDpi 1.25\n";
    assert!(settings_text_is_readable(text));
    let (s, unknown) = Settings::load_from_text(text);
    assert!(unknown.is_empty());
    assert_eq!(s.get_resolution(), [1024, 768]);
    assert_eq!(s.max_monitor_resolution(), [3840, 2160]);
    assert!(s.is_fullscreen());
    assert!(!s.is_borderless());
    assert_eq!(s.get_monitor_idx(), 2);
    assert!(!s.vsync_enabled());
    assert!(s.triple_buffer_enabled());
    assert_eq!(s.get_texture_msaa(), 4);
    assert_eq!(s.get_model_msaa(), 8);
    assert!(s.is_dpi_forced());
    assert_eq!(s.dpi_text(), b"1.25");
}

#[test]
fn load_keeps_values_on_bad_words() {
    let text = b"Resolution 0 720\nFullscreen yes\nTextureMsaa -3\nDpi abc\nMonitor x\nMaxMonitorResolution 10 ten\n";
    let (s, unknown) = Settings::load_from_text(text);
    assert!(unknown.is_empty());
    assert_eq!(s.get_resolution(), [1280, 720]);
    assert!(!s.is_fullscreen());
    assert_eq!(s.get_texture_msaa(), 1);
    assert_eq!(s.dpi_text(), b"1");
    assert_eq!(s.get_monitor_idx(), 0);
    assert_eq!(s.max_monitor_resolution(), [1920, 1080]);
}

#[test]
fn load_reports_unknown_lines() {
    let text = b"Colour blue green\nVsync False\n\nGamma 2\r\n";
    let (s, unknown) = Settings::load_from_text(text);
    assert!(!s.vsync_enabled());
    assert_eq!(unknown.len(), 3);
    assert_eq!(unknown[0], vec![b"Colour".to_vec(), b"blue".to_vec(), b"green".to_vec()]);
    assert_eq!(unknown[1], vec![Vec::<u8>::new()]);
    assert_eq!(unknown[2], vec![b"Gamma".to_vec(), b"2".to_vec()]);
}

#[test]
fn later_lines_win() {
    let text = b"Vsync False\nVsync True\nTextureMsaa 2\nTextureMsaa 16";
    let (s, _) = Settings::load_from_text(text);
    assert!(s.vsync_enabled());
    assert_eq!(s.get_texture_msaa(), 16);
}

#[test]
fn unreadable_text_is_detected() {
    assert!(!settings_text_is_readable(b"Resolution 1280\n"));
    assert!(!settings_text_is_readable(b"Vsync\n"));
    assert!(settings_text_is_readable(b"Something\n"));
    assert!(settings_text_is_readable(b""));
}

#[test]
fn written_text_reads_back() {
    let mut s = Settings::initial();
    s.set_resolution(1600, 900);
    s.set_vsync(false);
    s._set_dpi(b"2.0".to_vec());
    s._enable_dpi(true);
    let text = s.to_text();
    let (back, unknown) = Settings::load_from_text(&text);
    assert!(unknown.is_empty());
    assert_eq!(back.to_text(), text);
}

#[test]
fn keys_are_recognised() {
    assert!(setting_key_of(b"Resolution") == SettingKey::Resolution);
    assert!(setting_key_of(b"MaxMonitorResolution") == SettingKey::MaxMonitorResolution);
    assert!(setting_key_of(b"Dpi") == SettingKey::Dpi);
    assert!(setting_key_of(b"dpi") == SettingKey::Unknown);
}

#[test]
fn resolution_table() {
    let r = Settings::resolutions();
    assert_eq!(r.len(), 99);
    assert_eq!(r[0], (2160, 1080, "(1:2)"));
    assert_eq!(r[1], (240, 160, "(3:2)"));
}

#[test]
fn negative_resolution_wraps_as_cast() {
    let mut s = Settings::initial();
    s.set_resolution(-1, 2);
    assert_eq!(s.get_resolution(), [u32::MAX, 2]);
}

#[test]
fn default_file_reads_as_default_settings() {
    let text = Settings::default_text();
    let (s, unknown) = Settings::load_from_text(&text);
    assert!(unknown.is_empty());
    assert_eq!(s.to_text(), Settings::default_file_settings().to_text());
    assert_eq!(s.get_texture_msaa(), 2);
    assert_eq!(s.get_model_msaa(), 2);
}

#[test]
fn cloned_settings_keep_their_values() {
    let mut s = Settings::initial();
    s._set_dpi(b"1.25".to_vec());
    s.set_resolution(1024, 768);
    let c = s.clone();
    assert_eq!(c.to_text(), s.to_text());
    assert_eq!(c.get_minimum_resolution(), [800, 640]);
    assert_eq!(c.dpi_text(), b"1.25");
}

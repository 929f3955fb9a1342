use audibian::audio::eq::{EqBand, FilterTypeSerial};
use audibian::commands::channels::{add_input_channel, add_return_channel, toggle_send};
use audibian::commands::pactl::parse_module_id;
use audibian::commands::solo::{strip_key, SoloSet};
use audibian::mixer::config::{default_fader, default_pan, default_scale, default_send_level, default_true, CENTRE, UNITY};
use audibian::mixer::{MidiChannel, MixerConfig, SendRoute};
use audibian::profiles::config::AppConfig;
use audibian::profiles::store::profiles_dir;
use audibian::soundboard::SoundboardConfig;
use audibian::text::{dec_u32, parse_u32};

#[test]
fn defaults_are_unity_and_centre() {
    assert!(default_true());
    assert_eq!(default_scale(), 1.0f32.to_bits());
    assert_eq!(default_send_level(), 1.0f32.to_bits());
    assert_eq!(default_fader(), UNITY);
    assert_eq!(default_pan(), 0.0f32.to_bits());
    assert_eq!(CENTRE, 0.0f32.to_bits());
    let s = SendRoute::default();
    assert_eq!((s.input_channel_id, s.return_channel_id, s.level), (0, 0, UNITY));
    let cfg = MixerConfig::default();
    assert_eq!(cfg.next_id, 0);
    assert_eq!(cfg.master_fader, UNITY);
    assert_eq!(cfg.global_scale, UNITY);
    assert!(cfg.master_sink.is_none());
    let app = AppConfig::default();
    assert!(app.default_profile.is_none() && !app.autostart);
}

#[test]
fn default_band_is_flat_peak_at_one_kilohertz() {
    let b = EqBand::default();
    assert_eq!(b.filter_type, FilterTypeSerial::Peak);
    assert_eq!(b.frequency, 1000.0f64.to_bits());
    assert_eq!(b.gain_db, 0.0f64.to_bits());
    assert_eq!(b.q, 1.0f64.to_bits());
    assert!(b.enabled);
}

#[test]
fn decimal_text_reads_back() {
    for n in [0u32, 7, 10, 99, 4096, u32::MAX] {
        let text: Vec<char> = dec_u32(n).chars().collect();
        assert_eq!(parse_u32(&text), Some(n));
        assert_eq!(parse_module_id(&format!("{}\n", dec_u32(n))), Some(n));
    }
}

#[test]
fn solo_keys_differ_between_strips() {
    let keys = [strip_key(true, 1), strip_key(true, 11), strip_key(false, 1), strip_key(false, 11)];
    for a in 0..keys.len() {
        for b in 0..keys.len() {
            assert_eq!(a == b, keys[a] == keys[b]);
        }
    }
}

#[test]
fn solo_set_never_repeats_a_key() {
    let mut s = SoloSet::new();
    for k in ["in:1", "in:2", "in:1", "ret:3", "in:2"] {
        s.insert(k.to_string());
    }
    assert_eq!(s.keys().len(), 3);
    s.remove("in:9");
    assert_eq!(s.keys().len(), 3);
}

#[test]
fn toggling_a_send_on_then_off_restores_the_sends() {
    let mut cfg = MixerConfig::default();
    cfg.sends.push(SendRoute { input_channel_id: 4, return_channel_id: 5, level: 3 });
    let before = cfg.sends.clone();
    toggle_send(&mut cfg, 1, 2, true);
    assert_eq!(cfg.sends.len(), 2);
    toggle_send(&mut cfg, 1, 2, false);
    assert_eq!(cfg.sends, before);
}

#[test]
fn new_strips_get_fresh_distinct_ids() {
    let mut cfg = MixerConfig::default();
    add_input_channel(&mut cfg, "A".to_string());
    add_return_channel(&mut cfg, None);
    add_input_channel(&mut cfg, "B".to_string());
    let mut ids: Vec<u32> = cfg.input_channels.iter().map(|c| c.id).collect();
    ids.extend(cfg.return_channels.iter().map(|r| r.id));
    ids.sort();
    assert_eq!(ids, vec![0, 1, 2]);
    assert!(ids.iter().all(|i| *i < cfg.next_id));
}

#[test]
fn midi_strip_plugin_ids_and_names() {
    let mut m = MidiChannel {
        id: 9,
        name: "Synth".to_string(),
        sink_name: "audibian_midi_9".to_string(),
        order: 0,
        color: None,
        send_to_master: true,
        pan: CENTRE,
        fader: UNITY,
        muted: false,
        plugins: Vec::new(),
        next_plugin_id: 0,
        osc_udp_port: 0,
        osc_tcp_port: 0,
    };
    assert_eq!(m.next_plugin_id(), 1);
    assert_eq!(m.next_plugin_id(), 2);
    assert_eq!(m.carla_client_name(), "audibian_midi_9_host");
    assert_eq!(m.carla_project_path("/home/u"), "/home/u/.config/audibian/midi/midi_9.carxp");
}

#[test]
fn storage_locations() {
    assert_eq!(profiles_dir("/home/u"), "/home/u/.config/audibian/profiles");
    assert_eq!(SoundboardConfig::config_path("/home/u"), "/home/u/.config/audibian/soundboard.toml");
}

#[test]
fn default_strip_is_the_first_flagged_one() {
    let mut cfg = MixerConfig::default();
    add_input_channel(&mut cfg, "A".to_string());
    add_input_channel(&mut cfg, "B".to_string());
    add_input_channel(&mut cfg, "C".to_string());
    assert!(cfg.default_input_channel().is_none());
    cfg.input_channels[2].is_default = true;
    cfg.input_channels[1].is_default = true;
    assert_eq!(cfg.default_input_channel().unwrap().name, "B");
}

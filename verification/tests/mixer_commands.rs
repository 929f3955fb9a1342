use audibian::commands::channels::{
    add_input_channel, add_return_channel, channel_slug, remove_input_channel, slug_text,
    remove_return_channel, reorder_channels, set_channel_color, set_global_scale,
    set_input_is_default, set_input_match_rules, set_input_mono, set_input_send_to_master,
    set_input_source, set_master_sink, set_return_send_to_master, set_send_level, set_strip_eq,
    toggle_send, update_input_channel_name, update_return_channel_name,
};
use audibian::commands::solo::{strip_key, SoloSet};
use audibian::commands::strips::{
    master_levels, set_master_mute, set_master_pan, set_master_volume, set_strip_mute,
    set_strip_pan, set_strip_solo, set_strip_volume, snapshot_runtime_plan, solo_mutes,
    strip_levels, MASTER_SINK_NAME,
};
use audibian::mixer::config::{CENTRE, UNITY};
use audibian::mixer::{InputChannel, MixerConfig, ReturnChannel, SendRoute, StripEq};

fn input(id: u32, name: &str, sink: &str) -> InputChannel {
    InputChannel {
        id,
        name: name.to_string(),
        sink_name: sink.to_string(),
        order: 0,
        color: None,
        source_name: None,
        mono: false,
        send_to_master: true,
        pan: CENTRE,
        fader: UNITY,
        muted: false,
        app_match_rules: Vec::new(),
        is_default: false,
        eq: None,
        is_soundboard: false,
    }
}

fn ret(id: u32, name: &str, sink: &str) -> ReturnChannel {
    ReturnChannel {
        id,
        name: name.to_string(),
        sink_name: sink.to_string(),
        order: 0,
        color: None,
        send_to_master: true,
        pan: CENTRE,
        fader: UNITY,
        muted: false,
        eq: None,
    }
}

fn sample() -> MixerConfig {
    let mut cfg = MixerConfig::default();
    cfg.next_id = 3;
    cfg.input_channels.push(input(0, "Music", "audibian_music"));
    cfg.input_channels.push(input(1, "Voice", "audibian_voice"));
    cfg.return_channels.push(ret(2, "Return A", "audibian_return_2"));
    cfg
}

#[test]
fn strip_keys_name_kind_and_id() {
    assert_eq!(strip_key(true, 3), "in:3");
    assert_eq!(strip_key(false, 12), "ret:12");
    assert_ne!(strip_key(true, 1), strip_key(false, 1));
}

#[test]
fn solo_set_insert_remove() {
    let mut s = SoloSet::new();
    assert!(s.is_empty());
    s.insert("in:1".to_string());
    s.insert("in:1".to_string());
    s.insert("ret:2".to_string());
    assert_eq!(s.keys(), vec!["in:1".to_string(), "ret:2".to_string()]);
    assert!(s.contains("in:1"));
    s.remove("in:1");
    assert!(!s.contains("in:1"));
    assert_eq!(s.keys(), vec!["ret:2".to_string()]);
}

#[test]
fn solo_then_unsolo_restores_the_set() {
    let mut s = SoloSet::new();
    s.insert("ret:2".to_string());
    let before = s.keys();
    s.insert("in:7".to_string());
    s.remove("in:7");
    assert_eq!(s.keys(), before);
}

#[test]
fn effective_mute_rules() {
    let mut s = SoloSet::new();
    // nothing soloed: own flag
    assert!(!s.is_effectively_muted("in:0", false));
    assert!(s.is_effectively_muted("in:0", true));
    s.insert("in:1".to_string());
    // soloed strip follows its own flag, the others are silent
    assert!(!s.is_effectively_muted("in:1", false));
    assert!(s.is_effectively_muted("in:1", true));
    assert!(s.is_effectively_muted("in:0", false));
}

#[test]
fn strip_volume_updates_fader_and_reports_levels() {
    let mut cfg = sample();
    let solos = SoloSet::new();
    let half = 0.5f32.to_bits();
    let l = set_strip_volume(&mut cfg, &solos, 1, true, half).unwrap();
    assert_eq!(l.sink, "audibian_voice");
    assert_eq!(l.fader, half);
    assert_eq!(l.pan, CENTRE);
    assert!(!l.muted);
    assert_eq!(cfg.input_channels[1].fader, half);
    assert_eq!(cfg.input_channels[0].fader, UNITY);
}

#[test]
fn strip_change_on_missing_strip_does_nothing() {
    let mut cfg = sample();
    let solos = SoloSet::new();
    assert!(set_strip_volume(&mut cfg, &solos, 9, true, 0).is_none());
    assert!(set_strip_pan(&mut cfg, &solos, 0, false, 0).is_none());
    assert!(set_strip_mute(&mut cfg, &solos, 2, true, true).is_none());
    assert_eq!(cfg.input_channels[0].fader, UNITY);
    assert!(!cfg.return_channels[0].muted);
}

#[test]
fn strip_pan_and_mute_on_return() {
    let mut cfg = sample();
    let mut solos = SoloSet::new();
    solos.insert(strip_key(true, 0));
    let left = (-1.0f32).to_bits();
    let l = set_strip_pan(&mut cfg, &solos, 2, false, left).unwrap();
    assert_eq!(l.pan, left);
    // the return is not soloed while an input is: silent in effect
    assert!(l.muted);
    assert!(!cfg.return_channels[0].muted);
    let m = set_strip_mute(&mut cfg, &solos, 0, true, true).unwrap();
    assert!(m.muted);
    assert!(cfg.input_channels[0].muted);
    let s = strip_levels(&cfg, true, 0).unwrap();
    assert!(s.muted);
}

#[test]
fn soloing_pushes_every_strip() {
    let cfg = sample();
    let mut solos = SoloSet::new();
    let levels = set_strip_solo(&cfg, &mut solos, 1, true, true);
    assert_eq!(levels.len(), 3);
    assert_eq!(levels[0].sink, "audibian_music");
    assert!(levels[0].muted);
    assert_eq!(levels[1].sink, "audibian_voice");
    assert!(!levels[1].muted);
    assert_eq!(levels[2].sink, "audibian_return_2");
    assert!(levels[2].muted);
    let levels = set_strip_solo(&cfg, &mut solos, 1, true, false);
    assert!(levels.iter().all(|l| !l.muted));
    assert!(solos.is_empty());
}

#[test]
fn master_is_never_soloed_away() {
    let mut cfg = sample();
    let mut solos = SoloSet::new();
    solos.insert(strip_key(true, 0));
    let m = master_levels(&cfg);
    assert_eq!(m.sink, MASTER_SINK_NAME);
    assert!(!m.muted);
    let v = set_master_volume(&mut cfg, 2.0f32.to_bits());
    assert_eq!(v.fader, 2.0f32.to_bits());
    let p = set_master_pan(&mut cfg, 0.25f32.to_bits());
    assert_eq!(p.pan, 0.25f32.to_bits());
    assert_eq!(p.fader, 2.0f32.to_bits());
    let q = set_master_mute(&mut cfg, true);
    assert!(q.muted);
    assert!(cfg.master_muted);
    assert_eq!(solo_mutes(&cfg, &solos).len(), 3);
}

#[test]
fn runtime_plan_covers_strips_master_and_sends() {
    let mut cfg = sample();
    cfg.sends.push(SendRoute { input_channel_id: 0, return_channel_id: 2, level: 0.5f32.to_bits() });
    cfg.sends.push(SendRoute { input_channel_id: 1, return_channel_id: 2, level: UNITY });
    let solos = SoloSet::new();
    let ids = vec![((1, 2), 77), ((0, 2), 55)];
    let (strips, master, vols) = snapshot_runtime_plan(&cfg, &solos, &ids);
    assert_eq!(strips.len(), 3);
    assert_eq!(master.sink, "audibian_master");
    assert_eq!(vols, vec![(55, 0.5f32.to_bits()), (77, UNITY)]);
}

#[test]
fn slug_lowercases_and_replaces_symbols() {
    assert_eq!(channel_slug("My Mic!"), "my_mic_");
    assert_eq!(channel_slug("Música 2"), "música_2");
    assert_eq!(channel_slug(""), "");
    assert_eq!(slug_text("My Mic!"), "My_Mic_");
    assert_eq!(slug_text("a-b c"), "a_b_c");
}

#[test]
fn add_input_channel_appends_fresh_strip() {
    let mut cfg = sample();
    let (id, sink) = add_input_channel(&mut cfg, "Game Audio".to_string());
    assert_eq!(id, 3);
    assert_eq!(sink, "audibian_game_audio");
    assert_eq!(cfg.next_id, 4);
    let ch = cfg.input_channels.last().unwrap();
    assert_eq!(ch.id, 3);
    assert_eq!(ch.name, "Game Audio");
    assert_eq!(ch.sink_name, "audibian_game_audio");
    assert_eq!(ch.order, 2);
    assert!(ch.send_to_master);
    assert_eq!(ch.fader, UNITY);
    assert_eq!(ch.pan, CENTRE);
    assert!(!ch.is_default && !ch.muted && !ch.mono);
}

#[test]
fn add_return_channel_names_by_letter() {
    let mut cfg = sample();
    let (id, sink, name) = add_return_channel(&mut cfg, None);
    assert_eq!(id, 3);
    assert_eq!(sink, "audibian_return_3");
    assert_eq!(name, "Return B");
    assert_eq!(cfg.return_channels[1].order, 1);
    let (_, _, named) = add_return_channel(&mut cfg, Some("FX".to_string()));
    assert_eq!(named, "FX");
    assert_eq!(cfg.return_channels[2].name, "FX");
    assert_eq!(cfg.next_id, 5);
}

#[test]
fn return_letters_wrap_after_z() {
    let mut cfg = MixerConfig::default();
    for k in 0..26u32 {
        cfg.return_channels.push(ret(100 + k, "r", "s"));
    }
    let (_, _, name) = add_return_channel(&mut cfg, None);
    assert_eq!(name, "Return A");
}

#[test]
fn removing_an_input_drops_its_sends() {
    let mut cfg = sample();
    cfg.sends.push(SendRoute { input_channel_id: 0, return_channel_id: 2, level: UNITY });
    cfg.sends.push(SendRoute { input_channel_id: 1, return_channel_id: 2, level: UNITY });
    remove_input_channel(&mut cfg, 0);
    assert_eq!(cfg.input_channels.len(), 1);
    assert_eq!(cfg.input_channels[0].id, 1);
    assert_eq!(cfg.sends, vec![SendRoute { input_channel_id: 1, return_channel_id: 2, level: UNITY }]);
}

#[test]
fn removing_a_return_drops_its_sends() {
    let mut cfg = sample();
    cfg.sends.push(SendRoute { input_channel_id: 0, return_channel_id: 2, level: UNITY });
    assert_eq!(remove_return_channel(&mut cfg, 2), Some("audibian_return_2".to_string()));
    assert!(cfg.return_channels.is_empty());
    assert!(cfg.sends.is_empty());
    assert_eq!(remove_return_channel(&mut cfg, 2), None);
}

#[test]
fn renaming_strips() {
    let mut cfg = sample();
    update_input_channel_name(&mut cfg, 1, "Mic".to_string());
    assert_eq!(cfg.input_channels[1].name, "Mic");
    let sink = update_return_channel_name(&mut cfg, 2, "Reverb".to_string());
    assert_eq!(sink, Some("audibian_return_2".to_string()));
    assert_eq!(cfg.return_channels[0].name, "Reverb");
    assert_eq!(update_return_channel_name(&mut cfg, 5, "x".to_string()), None);
}

#[test]
fn toggling_a_send_on_and_off() {
    let mut cfg = sample();
    let (a, b) = toggle_send(&mut cfg, 0, 2, true);
    assert_eq!(a, Some("audibian_music".to_string()));
    assert_eq!(b, Some("audibian_return_2".to_string()));
    assert_eq!(cfg.sends, vec![SendRoute { input_channel_id: 0, return_channel_id: 2, level: UNITY }]);
    toggle_send(&mut cfg, 0, 2, true);
    assert_eq!(cfg.sends.len(), 1);
    let (a, b) = toggle_send(&mut cfg, 0, 9, false);
    assert_eq!(a, Some("audibian_music".to_string()));
    assert_eq!(b, None);
    toggle_send(&mut cfg, 0, 2, false);
    assert!(cfg.sends.is_empty());
}

#[test]
fn send_level_and_its_module() {
    let mut cfg = sample();
    cfg.sends.push(SendRoute { input_channel_id: 0, return_channel_id: 2, level: UNITY });
    let ids = vec![((0, 2), 31)];
    assert_eq!(set_send_level(&mut cfg, &ids, 0, 2, 0.25f32.to_bits()), Some(31));
    assert_eq!(cfg.sends[0].level, 0.25f32.to_bits());
    assert_eq!(set_send_level(&mut cfg, &ids, 1, 2, 0), None);
    assert_eq!(cfg.sends.len(), 1);
}

#[test]
fn input_source_and_mono() {
    let mut cfg = sample();
    cfg.input_channels[0].mono = true;
    let r = set_input_source(&mut cfg, 0, Some("alsa_input.usb".to_string()));
    assert_eq!(r, Some(("audibian_music".to_string(), true)));
    assert_eq!(cfg.input_channels[0].source_name, Some("alsa_input.usb".to_string()));
    let m = set_input_mono(&mut cfg, 0, false);
    assert_eq!(m, Some((Some("alsa_input.usb".to_string()), "audibian_music".to_string())));
    assert!(!cfg.input_channels[0].mono);
    assert_eq!(set_input_source(&mut cfg, 7, None), None);
}

#[test]
fn send_to_master_flags() {
    let mut cfg = sample();
    assert_eq!(set_return_send_to_master(&mut cfg, 2, false), Some("audibian_return_2_src".to_string()));
    assert!(!cfg.return_channels[0].send_to_master);
    assert_eq!(set_input_send_to_master(&mut cfg, 1, false), Some("audibian_voice".to_string()));
    assert!(!cfg.input_channels[1].send_to_master);
    assert_eq!(set_input_send_to_master(&mut cfg, 2, false), None);
}

#[test]
fn reordering_uses_positions() {
    let mut cfg = sample();
    reorder_channels(&mut cfg, &[1, 0], &[2]);
    assert_eq!(cfg.input_channels[0].order, 1);
    assert_eq!(cfg.input_channels[1].order, 0);
    assert_eq!(cfg.return_channels[0].order, 0);
    // an id listed twice keeps its last position; unknown ids are ignored
    reorder_channels(&mut cfg, &[0, 5, 0], &[]);
    assert_eq!(cfg.input_channels[0].order, 2);
    assert_eq!(cfg.input_channels[1].order, 0);
}

#[test]
fn colours_scale_and_master_output() {
    let mut cfg = sample();
    set_channel_color(&mut cfg, 0, true, "#ff0000".to_string());
    set_channel_color(&mut cfg, 2, false, "#00ff00".to_string());
    assert_eq!(cfg.input_channels[0].color, Some("#ff0000".to_string()));
    assert_eq!(cfg.return_channels[0].color, Some("#00ff00".to_string()));
    set_global_scale(&mut cfg, 1.5f32.to_bits());
    assert_eq!(cfg.global_scale, 1.5f32.to_bits());
    set_master_sink(&mut cfg, Some("alsa_output.hdmi".to_string()));
    assert_eq!(cfg.master_sink, Some("alsa_output.hdmi".to_string()));
}

#[test]
fn only_one_default_strip() {
    let mut cfg = sample();
    cfg.input_channels[0].is_default = true;
    set_input_is_default(&mut cfg, 1, true);
    assert!(!cfg.input_channels[0].is_default);
    assert!(cfg.input_channels[1].is_default);
    set_input_is_default(&mut cfg, 1, false);
    assert!(cfg.input_channels.iter().all(|c| !c.is_default));
}

#[test]
fn match_rules_and_eq_are_stored() {
    let mut cfg = sample();
    set_input_match_rules(&mut cfg, 0, vec!["spotify".to_string()]);
    assert_eq!(cfg.input_channels[0].app_match_rules, vec!["spotify".to_string()]);
    let eq = StripEq { enabled: true, bands: Vec::new() };
    assert_eq!(set_strip_eq(&mut cfg, 1, true, eq), Some("audibian_voice".to_string()));
    assert!(cfg.input_channels[1].eq.as_ref().unwrap().enabled);
    let eq = StripEq { enabled: true, bands: Vec::new() };
    assert_eq!(set_strip_eq(&mut cfg, 2, false, eq), None);
    assert!(cfg.return_channels[0].eq.is_none());
}

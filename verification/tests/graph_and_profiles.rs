use audibian::audio::eq::{build_filter_links, build_filter_nodes, count_enabled, filter_label, BandNumbers, EqBand, FilterType, FilterTypeSerial};
use audibian::audio::effects::{
    build_filter_chain_config, build_ns_config, eq_config_path, file_safe, is_orphaned_config,
    ns_config_path, virtual_sink_name, virtual_source_name,
};
use audibian::audio::graph::{
    media_type_from_str, node_type_from_media_class, pw_link_args, AudioGraph, AudioLink, AudioNode,
    AudioPort, Direction, MediaType, NodeType, PwCommand, PwEvent,
};
use audibian::audio::props::{global_event, link_from_props, node_from_props, port_from_props, ObjectKind};
use audibian::audio::strip_eq::{build_strip_eq_config, source_name_for, strip_eq_config_path};
use audibian::matrix_config::{MatrixConfig, PortLink};
use audibian::mixer::config::UNITY;
use audibian::mixer::{MixerConfig, MixerSnapshot, SendRoute};
use audibian::mixer::snapshot::send_key;
use audibian::patchbay::{
    alias_from_title, filter_type_name, matrix_layout, receiver_label, send_link_commands,
    send_mode_labels, send_rows, send_unlink_commands, short_class,
};
use audibian::profiles::apply::{apply_profile, snapshot_profile};
use audibian::profiles::config::{autostart_desktop_entry, autostart_desktop_path, config_path};
use audibian::profiles::model::{chrono_now, timestamp_text, AudioProfile, LinkSpec};
use audibian::profiles::store::{profile_names, ProfileStore};
use audibian::soundboard::SoundboardConfig;
use audibian::text::{parse_u32, path_join, strip_suffix_or_all};

fn node(id: u32, name: &str, class: &str) -> AudioNode {
    AudioNode {
        id,
        name: name.to_string(),
        nick: None,
        description: None,
        app_name: None,
        node_type: node_type_from_media_class(class),
        media_class: Some(class.to_string()),
        volume: UNITY,
        muted: false,
    }
}

fn port(id: u32, node_id: u32, name: &str, direction: Direction, index: u32) -> AudioPort {
    AudioPort { id, node_id, name: name.to_string(), direction, media_type: MediaType::Audio, port_index: index }
}

fn props(v: &[(&str, &str)]) -> Vec<(String, String)> {
    v.iter().map(|(k, x)| (k.to_string(), x.to_string())).collect()
}

fn band(t: FilterTypeSerial, enabled: bool) -> EqBand {
    EqBand { filter_type: t, frequency: 0, gain_db: 0, q: 0, enabled }
}

fn nums(f: &str, q: &str, g: &str) -> BandNumbers {
    BandNumbers { freq: f.to_string(), q: q.to_string(), gain: g.to_string() }
}

fn two_node_graph() -> AudioGraph {
    let mut g = AudioGraph::new();
    g.add_node(node(1, "mic", "Audio/Source"));
    g.add_node(node(2, "speakers", "Audio/Sink"));
    g.add_port(port(10, 1, "capture_FL", Direction::Output, 0));
    g.add_port(port(11, 1, "capture_FR", Direction::Output, 1));
    g.add_port(port(21, 2, "playback_FR", Direction::Input, 1));
    g.add_port(port(20, 2, "playback_FL", Direction::Input, 0));
    g
}

#[test]
fn media_classes_give_node_types() {
    assert_eq!(node_type_from_media_class("Audio/Source"), NodeType::Source);
    assert_eq!(node_type_from_media_class("Stream/Output/Audio"), NodeType::Source);
    assert_eq!(node_type_from_media_class("Audio/Sink"), NodeType::Sink);
    assert_eq!(node_type_from_media_class("Stream/Input/Audio"), NodeType::Sink);
    assert_eq!(node_type_from_media_class("Audio/Duplex"), NodeType::Duplex);
    assert_eq!(node_type_from_media_class("Audio/Filter"), NodeType::Filter);
    assert_eq!(node_type_from_media_class("Video/Whatever"), NodeType::Unknown);
    assert_eq!(media_type_from_str("MIDI"), MediaType::Midi);
    assert_eq!(media_type_from_str("Audio"), MediaType::Audio);
    assert_eq!(media_type_from_str("audio"), MediaType::Unknown);
}

#[test]
fn graph_ports_come_sorted_and_go_with_their_node() {
    let mut g = two_node_graph();
    let ins: Vec<u32> = g.input_ports_for_node(2).iter().map(|p| p.id).collect();
    assert_eq!(ins, vec![20, 21]);
    let outs: Vec<u32> = g.output_ports_for_node(1).iter().map(|p| p.id).collect();
    assert_eq!(outs, vec![10, 11]);
    assert_eq!(g.ports_for_node(2).len(), 2);
    g.add_link(AudioLink { id: 5, output_node_id: 1, output_port_id: 10, input_node_id: 2, input_port_id: 20, active: true });
    g.remove_node(2);
    assert!(g.node(2).is_none());
    assert!(g.port(20).is_none());
    assert!(g.links().is_empty());
    assert_eq!(g.node_named("mic").unwrap().id, 1);
}

#[test]
fn connecting_nodes_pairs_ports() {
    let g = two_node_graph();
    assert_eq!(
        g.connect_nodes("mic", "speakers", false),
        vec![
            PwCommand::CreateLink { output_port_id: 10, input_port_id: 20 },
            PwCommand::CreateLink { output_port_id: 11, input_port_id: 21 },
        ]
    );
    assert_eq!(g.connect_nodes("mic", "speakers", true).len(), 4);
    assert!(g.connect_nodes("mic", "nowhere", false).is_empty());
}

#[test]
fn events_update_the_graph() {
    let mut g = AudioGraph::new();
    g.apply_event(PwEvent::NodeAdded(node(3, "x", "Audio/Sink")));
    g.apply_event(PwEvent::NodeVolume { node_id: 3, volume: 0.5f32.to_bits(), muted: true });
    let n = g.node(3).unwrap();
    assert_eq!(n.volume, 0.5f32.to_bits());
    assert!(n.muted);
    g.apply_event(PwEvent::NodeRemoved(3));
    assert!(g.nodes().is_empty());
}

#[test]
fn registry_properties_become_objects() {
    let n = node_from_props(7, &props(&[("media.class", "Audio/Sink"), ("node.name", "speakers"), ("node.nick", "Speakers")])).unwrap();
    assert_eq!(n.name, "speakers");
    assert_eq!(n.nick, Some("Speakers".to_string()));
    assert_eq!(n.node_type, NodeType::Sink);
    assert_eq!(n.media_class, Some("Audio/Sink".to_string()));
    assert_eq!(n.volume, 1.0f32.to_bits());
    let unnamed = node_from_props(8, &props(&[])).unwrap();
    assert_eq!(unnamed.name, "node-8");
    assert_eq!(unnamed.node_type, NodeType::Unknown);
    assert_eq!(unnamed.media_class, None);
    assert!(node_from_props(9, &props(&[("media.class", "Video/Source")])).is_none());

    let p = port_from_props(30, &props(&[("node.id", "7"), ("port.direction", "out"), ("port.id", "1")])).unwrap();
    assert_eq!((p.node_id, p.direction, p.port_index, p.name.as_str()), (7, Direction::Output, 1, "port-30"));
    assert!(port_from_props(31, &props(&[("node.id", "x"), ("port.direction", "in")])).is_none());
    assert!(port_from_props(32, &props(&[("node.id", "7"), ("port.direction", "both")])).is_none());
    let q = port_from_props(33, &props(&[("node.id", "7"), ("port.direction", "in"), ("port.id", "no"), ("port.name", "in_1")])).unwrap();
    assert_eq!((q.port_index, q.name.as_str()), (0, "in_1"));

    let l = link_from_props(40, &props(&[
        ("link.output.node", "1"),
        ("link.output.port", "10"),
        ("link.input.node", "2"),
        ("link.input.port", "20"),
    ]));
    assert_eq!(l, Some(AudioLink { id: 40, output_node_id: 1, output_port_id: 10, input_node_id: 2, input_port_id: 20, active: true }));
    assert!(link_from_props(41, &props(&[("link.output.node", "1")])).is_none());
    assert!(matches!(global_event(ObjectKind::Node, 7, &props(&[])), Some(PwEvent::NodeAdded(_))));
    assert!(global_event(ObjectKind::Other, 7, &props(&[])).is_none());
}

#[test]
fn link_commands_as_pw_link_arguments() {
    assert_eq!(
        pw_link_args(PwCommand::CreateLink { output_port_id: 10, input_port_id: 20 }),
        Some(vec!["10".to_string(), "20".to_string()])
    );
    assert_eq!(pw_link_args(PwCommand::DestroyLink { link_id: 5 }), Some(vec!["-d".to_string(), "5".to_string()]));
    assert_eq!(pw_link_args(PwCommand::Quit), None);
}

#[test]
fn patchbay_layout_and_sends() {
    let mut g = two_node_graph();
    let nodes = g.audio_nodes_sorted();
    let layout = matrix_layout(&g, &nodes);
    assert_eq!(layout.senders, vec![1]);
    assert_eq!(layout.receivers, vec![2]);
    let rows = send_rows(&[2, 1, 5], 1);
    assert_eq!(rows, vec![(2, "A".to_string()), (5, "C".to_string())]);
    assert_eq!(receiver_label(25), "Z");
    assert_eq!(receiver_label(26), "R26");
    assert_eq!(
        send_link_commands(&g, 1, 2, 2),
        vec![
            PwCommand::CreateLink { output_port_id: 11, input_port_id: 20 },
            PwCommand::CreateLink { output_port_id: 11, input_port_id: 21 },
        ]
    );
    assert_eq!(send_link_commands(&g, 1, 2, 0).len(), 2);
    assert!(send_link_commands(&g, 1, 2, 3).is_empty());
    assert_eq!(
        send_mode_labels(&g, 1),
        vec![
            "Mezcla (Estéreo sumado L+R)".to_string(),
            "Mono individual: capture_FL".to_string(),
            "Mono individual: capture_FR".to_string(),
        ]
    );
    g.add_link(AudioLink { id: 50, output_node_id: 1, output_port_id: 10, input_node_id: 2, input_port_id: 20, active: true });
    assert_eq!(send_unlink_commands(&g, 1, 2), vec![PwCommand::DestroyLink { link_id: 50 }]);
    assert!(send_unlink_commands(&g, 2, 1).is_empty());
}

#[test]
fn patchbay_texts() {
    assert_eq!(alias_from_title("[A] Speakers"), "Speakers");
    assert_eq!(alias_from_title("plain"), "plain");
    assert_eq!(alias_from_title("[B] "), "");
    assert_eq!(short_class("Audio/Sink"), "Sink");
    assert_eq!(short_class("Audio/Source/Virtual"), "Source");
    assert_eq!(short_class("Stream/Input/Audio"), "App→Sink");
    assert_eq!(short_class("Stream/Output/Audio"), "Src→App");
    assert_eq!(short_class("Audio/Duplex"), "Duplex");
    assert_eq!(short_class("Midi"), "Midi");
    assert_eq!(filter_type_name(0), "Low Shelf");
    assert_eq!(filter_type_name(2), "Peak");
    assert_eq!(filter_type_name(4), "High Shelf");
    assert_eq!(filter_type_name(9), "Peak");
}

#[test]
fn effect_names_and_paths() {
    assert_eq!(virtual_sink_name("alsa_output"), "audibian-eq-alsa_output");
    assert_eq!(virtual_source_name("mic"), "audibian-ns-mic");
    assert_eq!(eq_config_path("out"), "/tmp/audibian-eq-out.conf");
    assert_eq!(file_safe("a/b c:d"), "a_b_c_d");
    assert_eq!(ns_config_path("alsa in:1"), "/tmp/audibian-ns-alsa_in_1.conf");
    assert!(is_orphaned_config("audibian-eq-x.conf"));
    assert!(!is_orphaned_config("audibian-eq-x.conf.bak"));
    assert!(!is_orphaned_config("other.conf"));
    assert_eq!(source_name_for("audibian_music"), "audibian_music_eq");
    assert_eq!(strip_eq_config_path("s"), "/tmp/audibian-stripeq-s.conf");
    assert!(build_ns_config("mic", "audibian-ns-mic").starts_with("# Audibian Noise Suppression (WebRTC) for mic\n"));
}

#[test]
fn eq_band_helpers() {
    assert_eq!(FilterType::from(FilterTypeSerial::Notch), FilterType::Notch);
    assert_eq!(filter_label(FilterTypeSerial::LowShelf), "bq_lowshelf");
    let bands = vec![band(FilterTypeSerial::Peak, true), band(FilterTypeSerial::Peak, false), band(FilterTypeSerial::HighShelf, true)];
    assert_eq!(count_enabled(&bands), 2);
    assert_eq!(
        build_filter_links(&bands),
        "                { output = \"bq_0:Out L\"  input = \"bq_1:In L\" }\n                { output = \"bq_0:Out R\"  input = \"bq_1:In R\" }\n"
    );
    assert_eq!(build_filter_links(&bands[..1]), "");
}

#[test]
fn filter_graph_nodes() {
    let bands = vec![band(FilterTypeSerial::LowShelf, false), band(FilterTypeSerial::HighShelf, true)];
    let n = vec![nums("100.0", "0.707", "3.00"), nums("8000.0", "1.000", "-2.50")];
    assert_eq!(
        build_filter_nodes(&bands, &n, true),
        "                { type = builtin  label = bq_highshelf  name = bq_0\ncontrol = { \"Freq\" = 8000.0  \"Q\" = 1.000  \"Gain\" = -2.50 } }\n"
    );
    assert_eq!(
        build_filter_nodes(&bands, &n, false),
        "                { type = builtin  label = bq_peaking  name = bq_0\n                  control = { \"Freq\" = 8000.0  \"Q\" = 1.000  \"Gain\" = -2.50 } }\n"
    );
    let off = vec![band(FilterTypeSerial::Peak, false)];
    assert_eq!(
        build_filter_nodes(&off, &n[..1], false),
        "                { type = builtin  label = bq_peaking  name = bq_0\n                  control = { \"Freq\" = 1000.0  \"Q\" = 1.0  \"Gain\" = 0.0 } }\n"
    );
}

#[test]
fn filter_chain_configurations() {
    let bands = vec![band(FilterTypeSerial::Peak, true)];
    let n = vec![nums("1000.0", "1.000", "0.00")];
    let c = build_filter_chain_config("out", "audibian-eq-out", &bands, &n, 48000);
    assert!(c.starts_with("# Audibian EQ filter-chain for out\ncontext.properties = {\n"));
    assert!(c.contains("            node.name      = \"audibian-eq-out\"\n            media.class    = \"Audio/Sink\"\n            audio.rate     = 48000\n"));
    assert!(c.ends_with("            node.target = \"out\"\n        }\n      }\n    }\n]\n"));
    let s = build_strip_eq_config("audibian_music", "audibian_music_eq", &bands, &n, 44100);
    assert!(s.starts_with("# Audibian per-strip EQ for audibian_music\n"));
    assert!(s.contains("            node.target     = \"audibian_music.monitor\"\n            audio.rate      = 44100\n"));
    assert!(s.contains("            inputs  = [ \"bq_0:In L\"  \"bq_0:In R\" ]\n"));
}

#[test]
fn snapshot_round_trip_restores_configuration() {
    let mut cfg = MixerConfig::default();
    let (_, _) = audibian::commands::channels::add_input_channel(&mut cfg, "Music".to_string());
    let (_, _, _) = audibian::commands::channels::add_return_channel(&mut cfg, None);
    cfg.sends.push(SendRoute { input_channel_id: 0, return_channel_id: 1, level: 0.5f32.to_bits() });
    cfg.input_channels[0].fader = 0.25f32.to_bits();
    cfg.master_muted = true;
    let snap = MixerSnapshot::from_config(&cfg);
    let mut changed = MixerConfig::default();
    let (_, _) = audibian::commands::channels::add_input_channel(&mut changed, "Music".to_string());
    let (_, _, _) = audibian::commands::channels::add_return_channel(&mut changed, None);
    changed.sends.push(SendRoute { input_channel_id: 0, return_channel_id: 1, level: UNITY });
    snap.apply_to(&mut changed);
    assert_eq!(changed.input_channels[0].fader, 0.25f32.to_bits());
    assert_eq!(changed.sends[0].level, 0.5f32.to_bits());
    assert!(changed.master_muted);
    assert_eq!(send_key(3, 14), "3:14");
}

#[test]
fn soundboard_strip_is_provisioned_once() {
    let mut cfg = MixerConfig::default();
    assert!(cfg.ensure_soundboard_channel());
    assert!(!cfg.ensure_soundboard_channel());
    assert_eq!(cfg.input_channels.len(), 1);
    assert_eq!(cfg.input_channels[0].sink_name, "audibian_soundboard");
    assert!(cfg.input_channels[0].is_soundboard);
}

#[test]
fn soundboard_ids_count_up() {
    let mut sb = SoundboardConfig::from_parts(Vec::new(), 4);
    assert_eq!(sb.next_id(), 4);
    assert_eq!(sb.next_id(), 5);
    assert_eq!(SoundboardConfig::sounds_dir("/home/u"), "/home/u/.local/share/audibian/sounds");
}

#[test]
fn matrix_pairs_replace_and_remove() {
    let mut m = MatrixConfig::default();
    m.set_node_pair("a", "b", vec![PortLink { src: "o".to_string(), dst: "i".to_string() }]);
    m.set_node_pair("a", "b", vec![PortLink { src: "o2".to_string(), dst: "i2".to_string() }]);
    assert_eq!(m.connections.len(), 1);
    assert_eq!(m.connections[0].links[0].src, "o2");
    assert_eq!(m.connections_involving("b").len(), 1);
    m.set_node_pair("a", "b", Vec::new());
    assert!(m.connections.is_empty());
    assert_eq!(MatrixConfig::config_path("/h"), "/h/.config/audibian/matrix.toml");
    assert_eq!(MixerConfig::config_path("/h"), "/h/.config/audibian/mixer.toml");
}

#[test]
fn profiles_apply_by_names() {
    let g = two_node_graph();
    let mut p = AudioProfile::new("live");
    p.links.push(LinkSpec {
        output_node: "mic".to_string(),
        output_port: "capture_FR".to_string(),
        input_node: "speakers".to_string(),
        input_port: "playback_FR".to_string(),
    });
    p.links.push(LinkSpec {
        output_node: "gone".to_string(),
        output_port: "x".to_string(),
        input_node: "speakers".to_string(),
        input_port: "y".to_string(),
    });
    let (result, cmds) = apply_profile(&p, &g);
    assert_eq!(cmds, vec![PwCommand::CreateLink { output_port_id: 11, input_port_id: 21 }]);
    assert_eq!(result.links_applied, 1);
    assert_eq!(result.unresolved_links, vec!["gone:x → speakers:y".to_string()]);
}

#[test]
fn profiles_capture_links_and_volumes() {
    let mut g = two_node_graph();
    g.add_link(AudioLink { id: 50, output_node_id: 1, output_port_id: 10, input_node_id: 2, input_port_id: 20, active: true });
    let p = snapshot_profile("now", &g);
    assert_eq!(p.name, "now");
    assert_eq!(p.links.len(), 1);
    assert_eq!(p.links[0].output_port, "capture_FL");
    assert_eq!(p.links[0].input_node, "speakers");
    assert_eq!(p.volumes.len(), 2);
    assert!(p.created_at.ends_with(" UTC"));
}

#[test]
fn timestamps_are_written_as_calendar_dates() {
    assert_eq!(timestamp_text(0), "1970-01-01 00:00:00 UTC");
    assert_eq!(timestamp_text(90061), "1970-01-02 01:01:01 UTC");
    assert_eq!(timestamp_text(951782400), "2000-02-29 00:00:00 UTC");
    assert_eq!(timestamp_text(1709251199), "2024-02-29 23:59:59 UTC");
    assert_eq!(timestamp_text(1709251200), "2024-03-01 00:00:00 UTC");
    assert_eq!(timestamp_text(1735689599), "2024-12-31 23:59:59 UTC");
    let now = chrono_now();
    assert!(now.ends_with(" UTC"));
    assert_eq!(now.len(), "1970-01-01 00:00:00 UTC".len());
    assert_ne!(now, "1970-01-01 00:00:00 UTC");
}

#[test]
fn profile_store_names_and_paths() {
    let files = vec!["b.toml".to_string(), "notes.txt".to_string(), "a.toml".to_string(), ".toml".to_string()];
    assert_eq!(profile_names(&files), vec!["a".to_string(), "b".to_string()]);
    let store = ProfileStore::new("/home/u/.config/audibian/profiles".to_string());
    assert_eq!(store.profile_path("live"), "/home/u/.config/audibian/profiles/live.toml");
    assert_eq!(config_path("/home/u"), "/home/u/.config/audibian/config.toml");
    assert_eq!(autostart_desktop_path("/home/u"), "/home/u/.config/autostart/audibian.desktop");
    assert!(autostart_desktop_entry("/usr/bin/audibian").contains("\nExec=/usr/bin/audibian\n"));
}

#[test]
fn text_helpers() {
    let digits: Vec<char> = "+4294967295".chars().collect();
    assert_eq!(parse_u32(&digits), Some(4294967295));
    let over: Vec<char> = "4294967296".chars().collect();
    assert_eq!(parse_u32(&over), None);
    assert_eq!(path_join("/a", "/b"), "/b");
    assert_eq!(path_join("", "b"), "b");
    assert_eq!(strip_suffix_or_all("x.monitor", ".monitor"), "x");
    assert_eq!(strip_suffix_or_all("x.mon", ".monitor"), "x.mon");
}

fn spec(on: &str, op: &str, inn: &str, ip: &str) -> LinkSpec {
    LinkSpec { output_node: on.to_string(), output_port: op.to_string(), input_node: inn.to_string(), input_port: ip.to_string() }
}

#[test]
fn saved_links_fall_back_to_the_lowest_numbered_port() {
    let g = two_node_graph();
    let mut p = AudioProfile::new("fallback");
    // port names unknown: the lowest-numbered port of each end
    p.links.push(spec("mic", "nope", "speakers", "nope"));
    // node missing at the input end: reported, and later links still apply
    p.links.push(spec("mic", "capture_FL", "gone", "x"));
    p.links.push(spec("mic", "capture_FR", "speakers", "playback_FL"));
    let (result, cmds) = apply_profile(&p, &g);
    assert_eq!(
        cmds,
        vec![
            PwCommand::CreateLink { output_port_id: 10, input_port_id: 20 },
            PwCommand::CreateLink { output_port_id: 11, input_port_id: 20 },
        ]
    );
    assert_eq!(result.links_applied, 2);
    assert_eq!(result.unresolved_links, vec!["mic:capture_FL → gone:x".to_string()]);
    assert_eq!(result.links_applied + result.unresolved_links.len(), p.links.len());
}

#[test]
fn direction_lists_are_the_node_list_filtered() {
    let mut g = two_node_graph();
    g.add_port(port(12, 1, "monitor_in", Direction::Input, 0));
    let all: Vec<u32> = g.ports_for_node(1).iter().map(|p| p.id).collect();
    let outs: Vec<u32> = g.output_ports_for_node(1).iter().map(|p| p.id).collect();
    let ins: Vec<u32> = g.input_ports_for_node(1).iter().map(|p| p.id).collect();
    let filtered = |d: Direction| -> Vec<u32> {
        g.ports_for_node(1).iter().filter(|p| p.direction == d).map(|p| p.id).collect()
    };
    assert_eq!(all, vec![10, 12, 11]);
    assert_eq!(outs, filtered(Direction::Output));
    assert_eq!(ins, filtered(Direction::Input));
}

#[test]
fn matrix_pair_saved_twice_or_cleared() {
    let mut m = MatrixConfig::default();
    m.set_node_pair("x", "y", vec![PortLink { src: "a".to_string(), dst: "b".to_string() }]);
    m.set_node_pair("a", "b", vec![PortLink { src: "o".to_string(), dst: "i".to_string() }]);
    let links = vec![PortLink { src: "o".to_string(), dst: "i".to_string() }];
    m.set_node_pair("a", "b", links.clone());
    let once: Vec<(String, String, usize)> =
        m.connections.iter().map(|c| (c.src_node.clone(), c.dst_node.clone(), c.links.len())).collect();
    m.set_node_pair("a", "b", links);
    let twice: Vec<(String, String, usize)> =
        m.connections.iter().map(|c| (c.src_node.clone(), c.dst_node.clone(), c.links.len())).collect();
    assert_eq!(once, twice);
    m.set_node_pair("a", "b", Vec::new());
    assert_eq!(m.connections.len(), 1);
    assert_eq!((m.connections[0].src_node.as_str(), m.connections[0].dst_node.as_str()), ("x", "y"));
}

#[test]
fn snapshot_of_one_config_applied_to_another() {
    let mut a = MixerConfig::default();
    let (_, _) = audibian::commands::channels::add_input_channel(&mut a, "Music".to_string());
    let (_, _, _) = audibian::commands::channels::add_return_channel(&mut a, None);
    a.sends.push(SendRoute { input_channel_id: 0, return_channel_id: 1, level: 0.75f32.to_bits() });
    a.input_channels[0].fader = 0.5f32.to_bits();
    a.input_channels[0].muted = true;
    a.return_channels[0].pan = 0.25f32.to_bits();
    a.master_fader = 0.8f32.to_bits();
    let snap = MixerSnapshot::from_config(&a);
    assert!(snap.is_well_formed());

    let mut b = MixerConfig::default();
    let (_, _) = audibian::commands::channels::add_input_channel(&mut b, "Other name".to_string());
    let (_, _, _) = audibian::commands::channels::add_return_channel(&mut b, None);
    b.sends.push(SendRoute { input_channel_id: 0, return_channel_id: 1, level: UNITY });
    b.input_channels[0].color = Some("#ff0000".to_string());
    snap.apply_to(&mut b);
    assert_eq!(b.input_channels[0].fader, 0.5f32.to_bits());
    assert!(b.input_channels[0].muted);
    assert_eq!(b.return_channels[0].pan, 0.25f32.to_bits());
    assert_eq!(b.sends[0].level, 0.75f32.to_bits());
    assert_eq!(b.master_fader, 0.8f32.to_bits());
    assert_eq!(b.input_channels[0].name, "Other name");
    assert_eq!(b.input_channels[0].color, Some("#ff0000".to_string()));
}

#[test]
fn snapshots_with_repeated_keys_are_not_well_formed() {
    let snap = MixerSnapshot {
        fader: vec![(1, UNITY), (1, 0)],
        mute: Vec::new(),
        pan: Vec::new(),
        input_to_master: Vec::new(),
        return_to_master: Vec::new(),
        send_levels: Vec::new(),
        eq: Vec::new(),
        master_fader: None,
        master_mute: None,
        master_eq: None,
    };
    assert!(!snap.is_well_formed());
    let levels = MixerSnapshot {
        fader: vec![(1, UNITY), (2, 0)],
        send_levels: vec![("1:2".to_string(), UNITY), ("1:2".to_string(), 0)],
        ..snap
    };
    assert!(!levels.is_well_formed());
    let fine = MixerSnapshot { send_levels: vec![("1:2".to_string(), UNITY)], ..levels };
    assert!(fine.is_well_formed());
}

#[test]
fn only_followed_classes_become_nodes() {
    assert!(global_event(ObjectKind::Node, 9, &props(&[("media.class", "Video/Source")])).is_none());
    assert!(global_event(ObjectKind::Node, 9, &props(&[("media.class", "Midi/Bridge")])).is_none());
    assert!(global_event(ObjectKind::Node, 9, &props(&[("media.class", "Stream/Output/Audio")])).is_some());
    assert!(global_event(ObjectKind::Node, 9, &props(&[("media.class", "Audio/Sink")])).is_some());
}

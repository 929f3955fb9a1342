use audibian::audio::eq::{EqBand, FilterTypeSerial};
use audibian::audio::graph::{AudioGraph, AudioLink, AudioNode, AudioPort, Direction, MediaType, NodeType, PwCommand};
use audibian::commands::conf::{inputs_conf_path, pipewire_inputs_conf, quantum_conf, quantum_conf_path};
use audibian::commands::events::{enabled_strip_eqs, node_added_plan, node_removed_plan, source_loopbacks};
use audibian::commands::matrix::{port_links_from_pairs, restore_matrix_connections};
use audibian::commands::pactl::{
    create_master_modules, loopback_sink_input, master_loopback_due, master_modules_result, move_stream_args, parse_module_id,
    return_bus_modules, sink_input_volume_args, sink_mute_args, source_mute_args,
    stale_module_ids, unload_args, ModuleRequest,
};
use audibian::commands::routing::{
    input_routing, input_source_for, pick_strip_sink_for_app, pick_strip_sink_for_lowered, restore_mixer_sends,
};
use audibian::matrix_config::{MatrixConfig, PortLink};
use audibian::mixer::config::{CENTRE, UNITY};
use audibian::mixer::{InputChannel, MixerConfig, ReturnChannel, SendRoute, StripEq};

fn input(id: u32, name: &str, sink: &str) -> InputChannel {
    InputChannel {
        id,
        name: name.to_string(),
        sink_name: sink.to_string(),
        order: 0,
        color: None,
        source_name: None,
        mono: false,
        send_to_master: true,
        pan: CENTRE,
        fader: UNITY,
        muted: false,
        app_match_rules: Vec::new(),
        is_default: false,
        eq: None,
        is_soundboard: false,
    }
}

fn ret(id: u32, sink: &str) -> ReturnChannel {
    ReturnChannel {
        id,
        name: "Return".to_string(),
        sink_name: sink.to_string(),
        order: 0,
        color: None,
        send_to_master: true,
        pan: CENTRE,
        fader: UNITY,
        muted: false,
        eq: None,
    }
}

fn node(id: u32, name: &str, class: Option<&str>, app: Option<&str>) -> AudioNode {
    AudioNode {
        id,
        name: name.to_string(),
        nick: None,
        description: None,
        app_name: app.map(|s| s.to_string()),
        node_type: NodeType::Unknown,
        media_class: class.map(|s| s.to_string()),
        volume: UNITY,
        muted: false,
    }
}

fn port(id: u32, node_id: u32, name: &str, direction: Direction, index: u32) -> AudioPort {
    AudioPort { id, node_id, name: name.to_string(), direction, media_type: MediaType::Audio, port_index: index }
}

fn strings(v: &[&str]) -> Vec<String> {
    v.iter().map(|s| s.to_string()).collect()
}

#[test]
fn monitor_source_follows_eq() {
    let mut ch = input(0, "Music", "audibian_music");
    assert_eq!(input_source_for(&ch), "audibian_music.monitor");
    ch.eq = Some(StripEq { enabled: false, bands: Vec::new() });
    assert_eq!(input_source_for(&ch), "audibian_music.monitor");
    ch.eq = Some(StripEq { enabled: true, bands: Vec::new() });
    assert_eq!(input_source_for(&ch), "audibian_music_eq");
}

#[test]
fn sends_restore_as_loopbacks() {
    let mut cfg = MixerConfig::default();
    cfg.input_channels.push(input(0, "Music", "audibian_music"));
    cfg.return_channels.push(ret(1, "audibian_return_1"));
    cfg.sends.push(SendRoute { input_channel_id: 0, return_channel_id: 1, level: 7 });
    cfg.sends.push(SendRoute { input_channel_id: 0, return_channel_id: 9, level: 7 });
    let l = restore_mixer_sends(&cfg);
    assert_eq!(l.len(), 1);
    assert_eq!((l[0].input_id, l[0].return_id), (0, 1));
    assert_eq!(l[0].source, "audibian_music.monitor");
    assert_eq!(l[0].sink, "audibian_return_1");
    assert_eq!(l[0].level, 7);
}

#[test]
fn routing_of_an_input_strip() {
    let mut cfg = MixerConfig::default();
    let mut ch = input(0, "Music", "audibian_music");
    ch.eq = Some(StripEq { enabled: true, bands: Vec::new() });
    ch.send_to_master = false;
    cfg.input_channels.push(ch);
    cfg.return_channels.push(ret(1, "audibian_return_1"));
    cfg.sends.push(SendRoute { input_channel_id: 0, return_channel_id: 1, level: 9 });
    cfg.sends.push(SendRoute { input_channel_id: 5, return_channel_id: 1, level: 9 });
    let r = input_routing(&cfg, 0).unwrap();
    assert_eq!(r.sink_name, "audibian_music");
    assert_eq!(r.source_name, "audibian_music_eq");
    assert!(!r.send_to_master);
    assert_eq!(r.sends.len(), 1);
    assert_eq!((r.sends[0].return_id, r.sends[0].sink.as_str(), r.sends[0].level), (1, "audibian_return_1", 9));
    assert!(input_routing(&cfg, 4).is_none());
}

#[test]
fn app_streams_go_to_matching_strip_then_default() {
    let mut cfg = MixerConfig::default();
    let mut music = input(0, "Music", "audibian_music");
    music.app_match_rules = strings(&["", "SPOTIFY"]);
    let mut voice = input(1, "Voice", "audibian_voice");
    voice.app_match_rules = strings(&["discord"]);
    let mut other = input(2, "Other", "audibian_other");
    other.is_default = true;
    cfg.input_channels = vec![music, voice, other];
    assert_eq!(pick_strip_sink_for_app(&cfg, "Spotify Premium"), Some("audibian_music".to_string()));
    assert_eq!(pick_strip_sink_for_app(&cfg, "Discord"), Some("audibian_voice".to_string()));
    assert_eq!(pick_strip_sink_for_lowered(&cfg, "spotify premium"), Some("audibian_music".to_string()));
    assert_eq!(pick_strip_sink_for_lowered(&cfg, "Spotify Premium"), pick_strip_sink_for_lowered(&cfg, "firefox"));
    assert_eq!(pick_strip_sink_for_app(&cfg, "Firefox"), Some("audibian_other".to_string()));
    cfg.input_channels[2].is_default = false;
    assert_eq!(pick_strip_sink_for_app(&cfg, "Firefox"), None);
}

#[test]
fn module_load_arguments() {
    let (null, lb) = create_master_modules("alsa_output.pci");
    assert_eq!(null.load_args(), strings(&["load-module", "module-null-sink", "sink_name=audibian_master"]));
    assert_eq!(
        lb.load_args(),
        strings(&["load-module", "module-loopback", "source=audibian_master.monitor", "sink=alsa_output.pci", "latency_msec=1"])
    );
    let (sink, remap) = return_bus_modules("audibian_return_4", "Return A");
    assert_eq!(sink.load_args(), strings(&["load-module", "module-null-sink", "sink_name=audibian_return_4"]));
    assert_eq!(
        remap.load_args(),
        strings(&[
            "load-module",
            "module-remap-source",
            "source_name=audibian_return_4_src",
            "master=audibian_return_4.monitor",
            "source_properties=device.description=\"Return A\"",
        ])
    );
    let mono = ModuleRequest::SourceLoopback { source: "mic".to_string(), sink: "s".to_string(), mono: true };
    assert_eq!(
        mono.load_args(),
        strings(&["load-module", "module-loopback", "source=mic", "sink=s", "latency_msec=1", "channels=1", "channel_map=mono"])
    );
    let stereo = ModuleRequest::SourceLoopback { source: "mic".to_string(), sink: "s".to_string(), mono: false };
    assert_eq!(stereo.load_args().len(), 5);
}

#[test]
fn other_pactl_arguments() {
    assert_eq!(unload_args(42), strings(&["unload-module", "42"]));
    assert_eq!(sink_mute_args("s", true), strings(&["set-sink-mute", "s", "1"]));
    assert_eq!(source_mute_args("s", false), strings(&["set-source-mute", "s", "0"]));
    assert_eq!(move_stream_args(17, "audibian_music"), strings(&["move-sink-input", "17", "audibian_music"]));
    assert_eq!(sink_input_volume_args(8, "50%"), strings(&["set-sink-input-volume", "8", "50%"]));
}

#[test]
fn module_ids_read_back() {
    assert_eq!(parse_module_id("536870913\n"), Some(536870913));
    assert_eq!(parse_module_id("  12  "), Some(12));
    assert_eq!(parse_module_id("Failure: Module initialization failed"), None);
    assert_eq!(parse_module_id(""), None);
    assert_eq!(parse_module_id("4294967296"), None);
}

#[test]
fn stale_modules_are_found() {
    let listing = "12\tmodule-null-sink\tsink_name=audibian_music\t\n\
                   13\tmodule-loopback\tsource=audibian_music.monitor sink=x\t\n\
                   14\tmodule-loopback\tsource=mic sink=speakers\t\n\
                   15\tmodule-remap-source\tsource_name=audibian_return_2_src\t\n\
                   16\tmodule-null-sink\tsink_name=other\t\n";
    assert_eq!(stale_module_ids(listing), vec![12, 13, 15]);
    assert_eq!(stale_module_ids(""), Vec::<u32>::new());
}

#[test]
fn loopback_sink_input_is_found_by_owner() {
    let text = "Sink Input #40\n\tDriver: PipeWire\n\tOwner Module: 7\n\tClient: n/a\n\
                Sink Input #41\n\tOwner Module: n/a\n\
                Sink Input #42\n\tDriver: module-loopback.c\n\tOwner Module: 9\n";
    assert_eq!(loopback_sink_input(text, 9), Some(42));
    assert_eq!(loopback_sink_input(text, 7), Some(40));
    assert_eq!(loopback_sink_input(text, 3), None);
    // a module line before any header answers nothing
    assert_eq!(loopback_sink_input("Owner Module: 5\nSink Input #2\nModule: 5\n", 5), None);
}

#[test]
fn drop_in_texts() {
    let mut chs = vec![input(0, "Music", "audibian_music")];
    chs[0].name = "Music".to_string();
    let text = pipewire_inputs_conf(&chs).unwrap();
    let expected = "# Generated by audibian — do not edit manually\ncontext.objects = [\n    {\n        factory = adapter\n        args = {\n            factory.name = support.null-audio-sink\n            node.name = audibian_music\n            node.description = \"Music\"\n            media.class = Audio/Sink\n            audio.position = [ FL FR ]\n        }\n    }\n]\n";
    assert_eq!(text, expected);
    assert_eq!(pipewire_inputs_conf(&[]), None);
    assert_eq!(
        quantum_conf(true).unwrap(),
        "# Generated by audibian — do not edit manually\ncontext.properties = {\n    default.clock.quantum = 256\n    default.clock.min-quantum = 256\n    default.clock.max-quantum = 256\n}\n"
    );
    assert_eq!(quantum_conf(false), None);
    assert_eq!(inputs_conf_path("/home/ana"), "/home/ana/.config/pipewire/pipewire.conf.d/audibian-inputs.conf");
    assert_eq!(quantum_conf_path("/home/ana/"), "/home/ana/.config/pipewire/pipewire.conf.d/audibian-quantum.conf");
}

#[test]
fn node_added_reactions() {
    let mut cfg = MixerConfig::default();
    cfg.input_channels.push(input(0, "Music", "audibian_music"));
    cfg.input_channels.push(input(1, "Voice", "audibian_voice"));
    cfg.return_channels.push(ret(2, "audibian_return_2"));
    cfg.master_sink = Some("alsa_output.usb".to_string());
    let mut spotify = input(3, "Apps", "audibian_apps");
    spotify.app_match_rules = vec!["spotify".to_string()];
    cfg.input_channels.push(spotify);

    let p = node_added_plan(&cfg, &node(10, "audibian_master", Some("Audio/Sink"), None), true, false, false);
    assert_eq!(p.meter_key, Some("audibian_master".to_string()));
    assert_eq!(p.link_to_master, strings(&["audibian_music", "audibian_voice", "audibian_apps"]));
    assert_eq!(p.master_loopback_to, None);
    assert!(p.move_stream.is_none());

    let p = node_added_plan(&cfg, &node(11, "audibian_voice", Some("Audio/Sink"), None), true, true, false);
    assert_eq!(p.meter_key, Some("audibian_voice".to_string()));
    assert_eq!(p.link_to_master, strings(&["audibian_voice"]));
    let p = node_added_plan(&cfg, &node(11, "audibian_voice", Some("Audio/Sink"), None), true, true, true);
    assert_eq!(p.meter_key, None);
    assert_eq!(p.link_to_master, strings(&["audibian_voice"]));

    let p = node_added_plan(&cfg, &node(12, "audibian_return_2", Some("Audio/Sink"), None), true, true, false);
    assert_eq!(p.meter_key, Some("audibian_return_2".to_string()));
    assert!(p.link_to_master.is_empty());

    let p = node_added_plan(&cfg, &node(13, "alsa_output.usb", Some("Audio/Sink"), None), true, false, false);
    assert_eq!(p.meter_key, None);
    assert_eq!(p.master_loopback_to, Some("alsa_output.usb".to_string()));
    let p = node_added_plan(&cfg, &node(13, "alsa_output.usb", Some("Audio/Sink"), None), false, false, false);
    assert_eq!(p.master_loopback_to, None);

    let p = node_added_plan(&cfg, &node(14, "spotify", Some("Stream/Output/Audio"), Some("Spotify")), true, true, false);
    assert_eq!(p.move_stream, None);
    let p = node_added_plan(&cfg, &node(14, "spotify", Some("Stream/Output"), Some("Spotify")), true, true, false);
    assert_eq!(p.move_stream, Some((14, "audibian_apps".to_string())));
}

#[test]
fn node_removed_reactions() {
    let mut cfg = MixerConfig::default();
    cfg.master_sink = Some("alsa_output.usb".to_string());
    assert_eq!(node_removed_plan(&cfg, "audibian_music.monitor"), ("audibian_music".to_string(), false));
    assert_eq!(node_removed_plan(&cfg, "alsa_output.usb"), ("alsa_output.usb".to_string(), true));
    assert_eq!(node_removed_plan(&cfg, ".monitor"), ("".to_string(), false));
}

#[test]
fn start_up_loopbacks_and_eqs() {
    let mut cfg = MixerConfig::default();
    let mut a = input(0, "Mic", "audibian_mic");
    a.source_name = Some("alsa_input.usb".to_string());
    a.mono = true;
    let mut b = input(1, "Music", "audibian_music");
    let band = EqBand { filter_type: FilterTypeSerial::Peak, frequency: 1, gain_db: 2, q: 3, enabled: true };
    b.eq = Some(StripEq { enabled: true, bands: vec![band] });
    cfg.input_channels = vec![a, b];
    let l = source_loopbacks(&cfg);
    assert_eq!(l.len(), 1);
    assert_eq!(l[0].0, 0);
    assert_eq!(
        l[0].1.load_args(),
        strings(&["load-module", "module-loopback", "source=alsa_input.usb", "sink=audibian_mic", "latency_msec=1", "channels=1", "channel_map=mono"])
    );
    let e = enabled_strip_eqs(&cfg);
    assert_eq!(e.len(), 1);
    assert_eq!(e[0].key, "in:1");
    assert_eq!(e[0].sink, "audibian_music");
    assert_eq!(e[0].bands, vec![band]);
}

#[test]
fn saved_matrix_links_are_restored() {
    let mut g = AudioGraph::new();
    g.add_node(node(1, "app", Some("Stream/Output/Audio"), None));
    g.add_node(node(2, "speakers", Some("Audio/Sink"), None));
    g.add_port(port(10, 1, "output_FL", Direction::Output, 0));
    g.add_port(port(11, 1, "output_FR", Direction::Output, 1));
    g.add_port(port(20, 2, "playback_FL", Direction::Input, 0));
    g.add_port(port(21, 2, "playback_FR", Direction::Input, 1));
    let mut m = MatrixConfig::default();
    m.set_node_pair(
        "app",
        "speakers",
        vec![
            PortLink { src: "output_FR".to_string(), dst: "playback_FL".to_string() },
            PortLink { src: "missing".to_string(), dst: "playback_FL".to_string() },
            PortLink { src: "output_FL".to_string(), dst: "playback_FR".to_string() },
        ],
    );
    let cmds = restore_matrix_connections(&m, &g, "speakers");
    assert_eq!(
        cmds,
        vec![
            PwCommand::CreateLink { output_port_id: 11, input_port_id: 20 },
            PwCommand::CreateLink { output_port_id: 10, input_port_id: 21 },
        ]
    );
    assert!(restore_matrix_connections(&m, &g, "elsewhere").is_empty());
    g.remove_node(2);
    assert!(restore_matrix_connections(&m, &g, "app").is_empty());
    let _ = AudioLink { id: 0, output_node_id: 0, output_port_id: 0, input_node_id: 0, input_port_id: 0, active: true };
}

#[test]
fn port_pairs_become_links() {
    let pairs = vec![
        strings(&["a", "b"]),
        strings(&["only"]),
        strings(&["c", "d", "e"]),
    ];
    let l = port_links_from_pairs(&pairs);
    assert_eq!(l.len(), 2);
    assert_eq!((l[0].src.as_str(), l[0].dst.as_str()), ("a", "b"));
    assert_eq!((l[1].src.as_str(), l[1].dst.as_str()), ("c", "d"));
}

#[test]
fn master_bus_loads_its_loopback_only_after_its_sink() {
    assert!(master_loopback_due(Some(4)));
    assert!(!master_loopback_due(None));
    assert_eq!(master_modules_result(Some(4), Some(5)), Some((4, 5)));
    assert_eq!(master_modules_result(Some(4), None), None);
    assert_eq!(master_modules_result(None, None), None);
}

//! Sound-server drop-in configuration files the mixer writes.
use vstd::prelude::*;

use crate::mixer::config::{InputChannel, InputChannelView};
use crate::text::{join_path, path_join, text_copy};

verus! {

/// The first line of every drop-in the mixer writes.
pub open spec fn conf_banner() -> Seq<char> {
    "# Generated by audibian — do not edit manually\n"@
}

/// The drop-in directory under the home directory `home`.
pub open spec fn conf_dir_of(home: Seq<char>) -> Seq<char> {
    join_path(home, ".config/pipewire/pipewire.conf.d"@)
}

/// Where the input-strip drop-in lives.
pub fn inputs_conf_path(home: &str) -> (r: String)
    ensures
        r@ == join_path(conf_dir_of(home@), "audibian-inputs.conf"@),
{
    let dir = path_join(home, ".config/pipewire/pipewire.conf.d");
    path_join(dir.as_str(), "audibian-inputs.conf")
}

/// Where the low-latency drop-in lives.
pub fn quantum_conf_path(home: &str) -> (r: String)
    ensures
        r@ == join_path(conf_dir_of(home@), "audibian-quantum.conf"@),
{
    let dir = path_join(home, ".config/pipewire/pipewire.conf.d");
    path_join(dir.as_str(), "audibian-quantum.conf")
}

/// The drop-in that pins the sound server's quantum to 256 samples when
/// `enabled`; none (the file is removed) otherwise.
pub open spec fn quantum_conf_of(enabled: bool) -> Option<Seq<char>> {
    if enabled {
        Some(
            conf_banner() + "context.properties = {\n    default.clock.quantum = 256\n    default.clock.min-quantum = 256\n    default.clock.max-quantum = 256\n}\n"@,
        )
    } else {
        None
    }
}

/// The low-latency drop-in (see [`quantum_conf_of`]).
pub fn quantum_conf(enabled: bool) -> (r: Option<String>)
    ensures
        crate::mixer::config::opt_view(r) == quantum_conf_of(enabled),
{
    if enabled {
        let mut s = text_copy("# Generated by audibian — do not edit manually\n");
        s.append(
            "context.properties = {\n    default.clock.quantum = 256\n    default.clock.min-quantum = 256\n    default.clock.max-quantum = 256\n}\n",
        );
        Some(s)
    } else {
        None
    }
}

/// The drop-in entry that declares the virtual sink of one input strip.
pub open spec fn input_sink_entry(x: InputChannelView) -> Seq<char> {
    "    {\n        factory = adapter\n        args = {\n            factory.name = support.null-audio-sink\n            node.name = "@
        + x.sink_name + "\n            node.description = \""@ + x.name
        + "\"\n            media.class = Audio/Sink\n            audio.position = [ FL FR ]\n        }\n    }\n"@
}

/// The entries of the strips `v`, one after the other.
pub open spec fn input_sink_entries(v: Seq<InputChannelView>) -> Seq<char>
    decreases v.len(),
{
    if v.len() == 0 {
        Seq::empty()
    } else {
        input_sink_entries(v.drop_last()) + input_sink_entry(v.last())
    }
}

/// The drop-in that declares the virtual sinks of the input strips `v`;
/// none (the file is removed) when there are no input strips.
pub open spec fn inputs_conf_of(v: Seq<InputChannelView>) -> Option<Seq<char>> {
    if v.len() == 0 {
        None
    } else {
        Some(conf_banner() + "context.objects = [\n"@ + input_sink_entries(v) + "]\n"@)
    }
}

/// The input-strip drop-in (see [`inputs_conf_of`]).
pub fn pipewire_inputs_conf(input_channels: &[InputChannel]) -> (r: Option<String>)
    ensures
        crate::mixer::config::opt_view(r) == inputs_conf_of(input_channels@.map_values(|c: InputChannel| c@)),
{
    let ghost v = input_channels@.map_values(|c: InputChannel| c@);
    if input_channels.len() == 0 {
        return None;
    }
    let mut body = text_copy("");
    let mut i: usize = 0;
    proof {
        reveal_strlit("");
        assert(v.take(0) =~= Seq::<InputChannelView>::empty());
    }
    while i < input_channels.len()
        invariant
            i <= input_channels@.len(),
            v == input_channels@.map_values(|c: InputChannel| c@),
            body@ == input_sink_entries(v.take(i as int)),
        decreases input_channels@.len() - i,
    {
        let ch = &input_channels[i];
        body.append(
            "    {\n        factory = adapter\n        args = {\n            factory.name = support.null-audio-sink\n            node.name = ",
        );
        body.append(ch.sink_name.as_str());
        body.append("\n            node.description = \"");
        body.append(ch.name.as_str());
        body.append(
            "\"\n            media.class = Audio/Sink\n            audio.position = [ FL FR ]\n        }\n    }\n",
        );
        assert(v.take(i + 1).drop_last() =~= v.take(i as int));
        assert(v.take(i + 1).last() == ch@);
        i += 1;
    }
    assert(v.take(v.len() as int) =~= v);
    let mut conf = text_copy("# Generated by audibian — do not edit manually\n");
    conf.append("context.objects = [\n");
    conf.append(body.as_str());
    conf.append("]\n");
    Some(conf)
}

} // verus!

//! What the mixer does when the sound server reports a node appearing or
//! going away, and what it re-creates from the saved configuration at
//! start-up.
use vstd::prelude::*;

use crate::audio::eq::EqBand;
use crate::audio::graph::AudioNode;
use crate::commands::pactl::{ModuleRequest, ModuleRequestView};
use crate::commands::routing::{pick_strip_sink_for_app, strip_sink_for_app};
use crate::commands::solo::{strip_key, strip_key_of, texts};
use crate::commands::strips::MASTER_SINK_NAME;
use crate::mixer::config::{opt_view, InputChannelView, MixerConfig, MixerConfigView};
use crate::text::{same_text, strip_suffix_or_all, text_copy, without_suffix};

verus! {

/// Some input strip plays into the sink called `name`.
pub open spec fn is_input_sink(c: MixerConfigView, name: Seq<char>) -> bool {
    exists|i: int| 0 <= i < c.input_channels.len() && #[trigger] c.input_channels[i].sink_name == name
}

/// Some return bus plays into the sink called `name`.
pub open spec fn is_return_sink(c: MixerConfigView, name: Seq<char>) -> bool {
    exists|i: int| 0 <= i < c.return_channels.len() && #[trigger] c.return_channels[i].sink_name == name
}

/// The sinks of all input strips, in order.
pub open spec fn input_sinks(c: MixerConfigView) -> Seq<Seq<char>> {
    c.input_channels.map_values(|x: InputChannelView| x.sink_name)
}

/// What the mixer does when a node appears.
#[derive(Debug)]
pub struct NodeAddedPlan {
    /// Start a level meter on the node, under this key.
    pub meter_key: Option<String>,
    /// Link each of these nodes to the master bus.
    pub link_to_master: Vec<String>,
    /// Load the loopback from the master bus into this hardware output.
    pub master_loopback_to: Option<String>,
    /// Move this application stream into this strip sink.
    pub move_stream: Option<(u32, String)>,
}

/// The meter key of a new node: the master bus and the sinks of strips get
/// a meter under their own name.
pub open spec fn meter_key_of(c: MixerConfigView, name: Seq<char>) -> Option<Seq<char>> {
    if name == MASTER_SINK_NAME@ || is_return_sink(c, name) || is_input_sink(c, name) {
        Some(name)
    } else {
        None
    }
}

/// What is linked to the master bus when node `name` appears: an input
/// strip's sink is linked itself; when the master bus appears, every input
/// strip's sink is.
pub open spec fn master_links_of(c: MixerConfigView, name: Seq<char>) -> Seq<Seq<char>> {
    (if is_input_sink(c, name) {
        seq![name]
    } else {
        Seq::empty()
    }) + (if name == MASTER_SINK_NAME@ {
        input_sinks(c)
    } else {
        Seq::empty()
    })
}

/// When the chosen hardware output appears while the master bus is loaded
/// but its loopback is not, the loopback into that output is loaded again.
pub open spec fn master_loopback_of(
    c: MixerConfigView,
    name: Seq<char>,
    master_null_loaded: bool,
    master_loopback_loaded: bool,
) -> Option<Seq<char>> {
    if c.master_sink == Some(name) && !master_loopback_loaded && master_null_loaded {
        Some(name)
    } else {
        None
    }
}

/// An application's playback stream is moved to the strip its name picks.
pub open spec fn stream_move_of(c: MixerConfigView, n: AudioNode) -> Option<(u32, Seq<char>)> {
    match (n.media_class, n.app_name) {
        (Some(class), Some(app)) => if class@ == "Stream/Output"@ {
            match strip_sink_for_app(c, app@) {
                Some(s) => Some((n.id, s)),
                None => None,
            }
        } else {
            None
        },
        _ => None,
    }
}

fn is_input_sink_exec(cfg: &MixerConfig, name: &str) -> (r: bool)
    ensures
        r == is_input_sink(cfg@, name@),
{
    let mut i: usize = 0;
    while i < cfg.input_channels.len()
        invariant
            i <= cfg.input_channels@.len(),
            forall|k: int| 0 <= k < i ==> #[trigger] cfg@.input_channels[k].sink_name != name@,
        decreases cfg.input_channels@.len() - i,
    {
        if same_text(cfg.input_channels[i].sink_name.as_str(), name) {
            assert(cfg@.input_channels[i as int].sink_name == name@);
            return true;
        }
        i += 1;
    }
    false
}

fn is_return_sink_exec(cfg: &MixerConfig, name: &str) -> (r: bool)
    ensures
        r == is_return_sink(cfg@, name@),
{
    let mut i: usize = 0;
    while i < cfg.return_channels.len()
        invariant
            i <= cfg.return_channels@.len(),
            forall|k: int| 0 <= k < i ==> #[trigger] cfg@.return_channels[k].sink_name != name@,
        decreases cfg.return_channels@.len() - i,
    {
        if same_text(cfg.return_channels[i].sink_name.as_str(), name) {
            assert(cfg@.return_channels[i as int].sink_name == name@);
            return true;
        }
        i += 1;
    }
    false
}

/// What to do when node `node` appears, given whether the master bus and
/// its loopback into the hardware output are loaded and whether a level
/// meter already runs under the node's name (then no other is started).
pub fn node_added_plan(
    cfg: &MixerConfig,
    node: &AudioNode,
    master_null_loaded: bool,
    master_loopback_loaded: bool,
    metered: bool,
) -> (r: NodeAddedPlan)
    ensures
        opt_view(r.meter_key) == (if metered {
            None
        } else {
            meter_key_of(cfg@, node.name@)
        }),
        texts(r.link_to_master@) == master_links_of(cfg@, node.name@),
        opt_view(r.master_loopback_to) == master_loopback_of(
            cfg@,
            node.name@,
            master_null_loaded,
            master_loopback_loaded,
        ),
        (match r.move_stream {
            Some((id, s)) => Some((id, s@)),
            None => None,
        }) == stream_move_of(cfg@, *node),
{
    let name = node.name.as_str();
    let is_master = same_text(name, MASTER_SINK_NAME);
    let is_input = is_input_sink_exec(cfg, name);
    let is_return = is_return_sink_exec(cfg, name);
    let meter_key = if !metered && (is_master || is_return || is_input) {
        Some(text_copy(name))
    } else {
        None
    };
    let mut links: Vec<String> = Vec::new();
    if is_input {
        links.push(text_copy(name));
    }
    let ghost first = texts(links@);
    assert(first =~= (if is_input_sink(cfg@, name@) { seq![name@] } else { Seq::<Seq<char>>::empty() }));
    if is_master {
        let mut i: usize = 0;
        while i < cfg.input_channels.len()
            invariant
                i <= cfg.input_channels@.len(),
                texts(links@) == first + input_sinks(cfg@).take(i as int),
            decreases cfg.input_channels@.len() - i,
        {
            let ghost before = links@;
            links.push(text_copy(cfg.input_channels[i].sink_name.as_str()));
            assert(texts(links@) =~= texts(before).push(cfg@.input_channels[i as int].sink_name));
            assert(input_sinks(cfg@).take(i + 1) =~= input_sinks(cfg@).take(i as int).push(
                cfg@.input_channels[i as int].sink_name,
            ));
            i += 1;
        }
        assert(input_sinks(cfg@).take(input_sinks(cfg@).len() as int) =~= input_sinks(cfg@));
    } else {
        assert(texts(links@) =~= first + Seq::<Seq<char>>::empty());
    }
    let master_loopback_to = match &cfg.master_sink {
        Some(hw) => if same_text(hw.as_str(), name) && !master_loopback_loaded && master_null_loaded {
            Some(text_copy(name))
        } else {
            None
        },
        None => None,
    };
    let move_stream = match (&node.media_class, &node.app_name) {
        (Some(class), Some(app)) => if same_text(class.as_str(), "Stream/Output") {
            match pick_strip_sink_for_app(cfg, app.as_str()) {
                Some(s) => Some((node.id, s)),
                None => None,
            }
        } else {
            None
        },
        _ => None,
    };
    NodeAddedPlan { meter_key, link_to_master: links, master_loopback_to, move_stream }
}

/// What to do when the node called `name` goes away: the key of the meter
/// to stop (the name without a `.monitor` suffix), and whether to unload
/// the master bus's loopback (when the node was the chosen hardware output).
pub fn node_removed_plan(cfg: &MixerConfig, name: &str) -> (r: (String, bool))
    ensures
        r.0@ == without_suffix(name@, ".monitor"@),
        r.1 == (cfg@.master_sink == Some(name@)),
{
    let key = strip_suffix_or_all(name, ".monitor");
    let unload = match &cfg.master_sink {
        Some(hw) => same_text(hw.as_str(), name),
        None => false,
    };
    (key, unload)
}

/// The hardware sources looped into input strips at start-up: (strip id,
/// loopback from its source into its sink, mono when the strip is mono),
/// for every input strip that has a source.
pub open spec fn source_loopbacks_of(v: Seq<InputChannelView>) -> Seq<(u32, ModuleRequestView)>
    decreases v.len(),
{
    if v.len() == 0 {
        Seq::empty()
    } else {
        let rest = source_loopbacks_of(v.drop_last());
        let x = v.last();
        match x.source_name {
            Some(src) => rest.push(
                (x.id, ModuleRequestView::SourceLoopback { source: src, sink: x.sink_name, mono: x.mono }),
            ),
            None => rest,
        }
    }
}

pub open spec fn requests_view(v: Seq<(u32, ModuleRequest)>) -> Seq<(u32, ModuleRequestView)> {
    v.map_values(|p: (u32, ModuleRequest)| (p.0, p.1@))
}

/// The source loopbacks of the input strips (see [`source_loopbacks_of`]).
pub fn source_loopbacks(cfg: &MixerConfig) -> (r: Vec<(u32, ModuleRequest)>)
    ensures
        requests_view(r@) == source_loopbacks_of(cfg@.input_channels),
{
    let ghost v = cfg@.input_channels;
    let mut out: Vec<(u32, ModuleRequest)> = Vec::new();
    let mut i: usize = 0;
    assert(v.take(0) =~= Seq::<InputChannelView>::empty());
    while i < cfg.input_channels.len()
        invariant
            i <= cfg.input_channels@.len(),
            v == cfg@.input_channels,
            requests_view(out@) == source_loopbacks_of(v.take(i as int)),
        decreases cfg.input_channels@.len() - i,
    {
        let ch = &cfg.input_channels[i];
        assert(v.take(i + 1).drop_last() =~= v.take(i as int));
        assert(v.take(i + 1).last() == ch@);
        match &ch.source_name {
            Some(src) => {
                let ghost before = out@;
                out.push(
                    (
                        ch.id,
                        ModuleRequest::SourceLoopback {
                            source: text_copy(src.as_str()),
                            sink: text_copy(ch.sink_name.as_str()),
                            mono: ch.mono,
                        },
                    ),
                );
                assert(requests_view(out@) =~= requests_view(before).push(
                    (ch.id, ModuleRequestView::SourceLoopback { source: src@, sink: ch.sink_name@, mono: ch.mono }),
                ));
            },
            None => {},
        }
        i += 1;
    }
    assert(v.take(v.len() as int) =~= v);
    out
}

/// An EQ filter-chain to start for a strip: its solo key, its sink and its
/// bands.
#[derive(Debug)]
pub struct StripEqStart {
    pub key: String,
    pub sink: String,
    pub bands: Vec<EqBand>,
}

/// The EQs started at start-up: (solo key, sink, bands) of every input
/// strip whose EQ is on.
pub open spec fn enabled_eqs_of(v: Seq<InputChannelView>) -> Seq<(Seq<char>, Seq<char>, Seq<EqBand>)>
    decreases v.len(),
{
    if v.len() == 0 {
        Seq::empty()
    } else {
        let rest = enabled_eqs_of(v.drop_last());
        let x = v.last();
        match x.eq {
            Some(e) => if e.enabled {
                rest.push((strip_key_of(true, x.id), x.sink_name, e.bands))
            } else {
                rest
            },
            None => rest,
        }
    }
}

pub open spec fn eq_starts_view(v: Seq<StripEqStart>) -> Seq<(Seq<char>, Seq<char>, Seq<EqBand>)> {
    v.map_values(|s: StripEqStart| (s.key@, s.sink@, s.bands@))
}

fn copy_bands(b: &Vec<EqBand>) -> (r: Vec<EqBand>)
    ensures
        r@ == b@,
{
    let mut out: Vec<EqBand> = Vec::new();
    let mut i: usize = 0;
    while i < b.len()
        invariant
            i <= b@.len(),
            out@ == b@.take(i as int),
        decreases b@.len() - i,
    {
        out.push(b[i]);
        assert(b@.take(i + 1) =~= b@.take(i as int).push(b@[i as int]));
        i += 1;
    }
    assert(b@.take(b@.len() as int) =~= b@);
    out
}

/// The EQs to start for the input strips (see [`enabled_eqs_of`]).
pub fn enabled_strip_eqs(cfg: &MixerConfig) -> (r: Vec<StripEqStart>)
    ensures
        eq_starts_view(r@) == enabled_eqs_of(cfg@.input_channels),
{
    let ghost v = cfg@.input_channels;
    let mut out: Vec<StripEqStart> = Vec::new();
    let mut i: usize = 0;
    assert(v.take(0) =~= Seq::<InputChannelView>::empty());
    while i < cfg.input_channels.len()
        invariant
            i <= cfg.input_channels@.len(),
            v == cfg@.input_channels,
            eq_starts_view(out@) == enabled_eqs_of(v.take(i as int)),
        decreases cfg.input_channels@.len() - i,
    {
        let ch = &cfg.input_channels[i];
        assert(v.take(i + 1).drop_last() =~= v.take(i as int));
        assert(v.take(i + 1).last() == ch@);
        match &ch.eq {
            Some(e) => {
                if e.enabled {
                    let ghost before = out@;
                    out.push(
                        StripEqStart {
                            key: strip_key(true, ch.id),
                            sink: text_copy(ch.sink_name.as_str()),
                            bands: copy_bands(&e.bands),
                        },
                    );
                    assert(eq_starts_view(out@) =~= eq_starts_view(before).push(
                        (strip_key_of(true, ch.id), ch.sink_name@, e.bands@),
                    ));
                }
            },
            None => {},
        }
        i += 1;
    }
    assert(v.take(v.len() as int) =~= v);
    out
}

} // verus!

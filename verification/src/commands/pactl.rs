//! The sound-server modules the mixer loads, the command-line arguments
//! that load and unload them, and the reading of what the server answers.
use vstd::prelude::*;

use crate::commands::solo::texts;
use crate::commands::strips::MASTER_SINK_NAME;
use crate::seqs::{first_where, lemma_first_where_at, lemma_first_where_none};
use crate::text::{
    is_space, lemma_dec_digits, lemma_parse_dec_roundtrip, trim_end, trim_start,
    all_digits, chars_of, contains, dec, dec_u32, has_prefix, has_sub, join2, join3, lines_of,
    parse_u32, parse_u32_spec, starts_with, string_from_chars, text_copy, text_lines, trim_chars,
    trimmed,
};

verus! {

/// A module to load into the sound server.
#[derive(Debug)]
pub enum ModuleRequest {
    /// A virtual sink called `sink_name`.
    NullSink { sink_name: String },
    /// A source called `source_name` that re-exposes `master`, shown to
    /// applications as `description`.
    RemapSource { master: String, source_name: String, description: String },
    /// A low-latency loopback from `source` into `sink`.
    Loopback { source: String, sink: String },
    /// A low-latency loopback from a hardware `source` into `sink`, down-mixed
    /// to one channel when `mono`.
    SourceLoopback { source: String, sink: String, mono: bool },
}

pub enum ModuleRequestView {
    NullSink { sink_name: Seq<char> },
    RemapSource { master: Seq<char>, source_name: Seq<char>, description: Seq<char> },
    Loopback { source: Seq<char>, sink: Seq<char> },
    SourceLoopback { source: Seq<char>, sink: Seq<char>, mono: bool },
}

impl View for ModuleRequest {
    type V = ModuleRequestView;

    open spec fn view(&self) -> ModuleRequestView {
        match self {
            ModuleRequest::NullSink { sink_name } => ModuleRequestView::NullSink { sink_name: sink_name@ },
            ModuleRequest::RemapSource { master, source_name, description } => ModuleRequestView::RemapSource {
                master: master@,
                source_name: source_name@,
                description: description@,
            },
            ModuleRequest::Loopback { source, sink } => ModuleRequestView::Loopback {
                source: source@,
                sink: sink@,
            },
            ModuleRequest::SourceLoopback { source, sink, mono } => ModuleRequestView::SourceLoopback {
                source: source@,
                sink: sink@,
                mono: *mono,
            },
        }
    }
}

/// The arguments of the `pactl` call that loads module `r`.
pub open spec fn load_args_of(r: ModuleRequestView) -> Seq<Seq<char>> {
    match r {
        ModuleRequestView::NullSink { sink_name } => seq![
            "load-module"@,
            "module-null-sink"@,
            "sink_name="@ + sink_name,
        ],
        ModuleRequestView::RemapSource { master, source_name, description } => seq![
            "load-module"@,
            "module-remap-source"@,
            "source_name="@ + source_name,
            "master="@ + master,
            "source_properties=device.description=\""@ + description + "\""@,
        ],
        ModuleRequestView::Loopback { source, sink } => seq![
            "load-module"@,
            "module-loopback"@,
            "source="@ + source,
            "sink="@ + sink,
            "latency_msec=1"@,
        ],
        ModuleRequestView::SourceLoopback { source, sink, mono } => {
            let base = seq![
                "load-module"@,
                "module-loopback"@,
                "source="@ + source,
                "sink="@ + sink,
                "latency_msec=1"@,
            ];
            if mono {
                base + seq!["channels=1"@, "channel_map=mono"@]
            } else {
                base
            }
        },
    }
}

impl ModuleRequest {
    /// The arguments of the `pactl` call that loads this module.
    pub fn load_args(&self) -> (r: Vec<String>)
        ensures
            texts(r@) == load_args_of(self@),
    {
        let mut v: Vec<String> = Vec::new();
        v.push(text_copy("load-module"));
        match self {
            ModuleRequest::NullSink { sink_name } => {
                v.push(text_copy("module-null-sink"));
                v.push(join2("sink_name=", sink_name.as_str()));
            },
            ModuleRequest::RemapSource { master, source_name, description } => {
                v.push(text_copy("module-remap-source"));
                v.push(join2("source_name=", source_name.as_str()));
                v.push(join2("master=", master.as_str()));
                v.push(join3("source_properties=device.description=\"", description.as_str(), "\""));
            },
            ModuleRequest::Loopback { source, sink } => {
                v.push(text_copy("module-loopback"));
                v.push(join2("source=", source.as_str()));
                v.push(join2("sink=", sink.as_str()));
                v.push(text_copy("latency_msec=1"));
            },
            ModuleRequest::SourceLoopback { source, sink, mono } => {
                v.push(text_copy("module-loopback"));
                v.push(join2("source=", source.as_str()));
                v.push(join2("sink=", sink.as_str()));
                v.push(text_copy("latency_msec=1"));
                if *mono {
                    v.push(text_copy("channels=1"));
                    v.push(text_copy("channel_map=mono"));
                }
            },
        }
        assert(texts(v@) =~= load_args_of(self@));
        v
    }
}

/// The two modules of the master bus, in load order: its virtual sink, then
/// a loopback from that sink's monitor into the hardware output `hw_sink`.
/// The loopback is loaded only once the sink is.
pub fn create_master_modules(hw_sink: &str) -> (r: (ModuleRequest, ModuleRequest))
    ensures
        r.0@ == (ModuleRequestView::NullSink { sink_name: MASTER_SINK_NAME@ }),
        r.1@ == (ModuleRequestView::Loopback { source: MASTER_SINK_NAME@ + ".monitor"@, sink: hw_sink@ }),
{
    (
        ModuleRequest::NullSink { sink_name: text_copy(MASTER_SINK_NAME) },
        ModuleRequest::Loopback { source: join2(MASTER_SINK_NAME, ".monitor"), sink: text_copy(hw_sink) },
    )
}

/// Whether the master loopback is to be loaded, given the id the master
/// sink's load answered (none when it failed): only once the sink is loaded.
pub fn master_loopback_due(null_module: Option<u32>) -> (r: bool)
    ensures
        r == (null_module is Some),
{
    null_module.is_some()
}

/// The master bus's two module ids, sink then loopback, when both loaded;
/// none when either failed.
pub fn master_modules_result(null_module: Option<u32>, loopback_module: Option<u32>) -> (r: Option<
    (u32, u32),
>)
    ensures
        r == (match (null_module, loopback_module) {
            (Some(a), Some(b)) => Some((a, b)),
            _ => None,
        }),
{
    match (null_module, loopback_module) {
        (Some(a), Some(b)) => Some((a, b)),
        _ => None,
    }
}

/// The two modules of a return bus: its virtual sink, and a source that
/// re-exposes the sink's monitor as `<sink>_src`, shown as `description`.
pub fn return_bus_modules(sink: &str, description: &str) -> (r: (ModuleRequest, ModuleRequest))
    ensures
        r.0@ == (ModuleRequestView::NullSink { sink_name: sink@ }),
        r.1@ == (ModuleRequestView::RemapSource {
            master: sink@ + ".monitor"@,
            source_name: sink@ + "_src"@,
            description: description@,
        }),
{
    (
        ModuleRequest::NullSink { sink_name: text_copy(sink) },
        ModuleRequest::RemapSource {
            master: join2(sink, ".monitor"),
            source_name: join2(sink, "_src"),
            description: text_copy(description),
        },
    )
}

/// The arguments of the `pactl` call that unloads module `id`.
pub fn unload_args(id: u32) -> (r: Vec<String>)
    ensures
        texts(r@) == seq!["unload-module"@, dec(id as nat)],
{
    let mut v: Vec<String> = Vec::new();
    v.push(text_copy("unload-module"));
    v.push(dec_u32(id));
    assert(texts(v@) =~= seq!["unload-module"@, dec(id as nat)]);
    v
}

/// The module id `pactl load-module` prints: its whole output, trimmed, as
/// a `u32`; none when it is not one.
pub fn parse_module_id(stdout: &str) -> (r: Option<u32>)
    ensures
        r == parse_u32_spec(trimmed(stdout@)),
{
    let cs = chars_of(stdout);
    let t = trim_chars(cs.as_slice());
    parse_u32(t.as_slice())
}

/// Tab characters.
pub open spec fn is_tab() -> spec_fn(char) -> bool {
    |c: char| c == '\t'
}

/// The text of `l` before its first tab (all of it when it has none).
pub open spec fn first_field(l: Seq<char>) -> Seq<char> {
    match first_where(l, is_tab()) {
        Some(i) => l.take(i),
        None => l,
    }
}

/// A line of `pactl list modules short` that shows a module this mixer
/// loaded: a virtual sink or remapped source named after it, or a loopback
/// that touches one of its sinks.
pub open spec fn is_stale_line(l: Seq<char>) -> bool {
    ||| (has_sub(l, "module-null-sink"@) || has_sub(l, "module-remap-source"@)) && (has_sub(
        l,
        "audibian_return"@,
    ) || has_sub(l, "audibian_"@))
    ||| has_sub(l, "module-loopback"@) && has_sub(l, "audibian_"@)
}

/// The ids of the modules shown by the lines `lines`, in order: the first
/// field of each such line, trimmed, when it is a number.
pub open spec fn stale_ids(lines: Seq<Seq<char>>) -> Seq<u32>
    decreases lines.len(),
{
    if lines.len() == 0 {
        Seq::empty()
    } else {
        let rest = stale_ids(lines.drop_last());
        let l = lines.last();
        if is_stale_line(l) {
            match parse_u32_spec(trimmed(first_field(l))) {
                Some(id) => rest.push(id),
                None => rest,
            }
        } else {
            rest
        }
    }
}

fn first_field_of(l: &Vec<char>) -> (r: Vec<char>)
    ensures
        r@ == first_field(l@),
{
    let mut i: usize = 0;
    while i < l.len()
        invariant
            i <= l@.len(),
            forall|j: int| 0 <= j < i ==> !is_tab()(#[trigger] l@[j]),
        decreases l@.len() - i,
    {
        if l[i] == '\t' {
            proof {
                lemma_first_where_at(l@, is_tab(), i as int);
            }
            let mut out: Vec<char> = Vec::new();
            let mut k: usize = 0;
            while k < i
                invariant
                    k <= i < l@.len(),
                    out@ == l@.take(k as int),
                decreases i - k,
            {
                out.push(l[k]);
                assert(l@.take(k + 1) =~= l@.take(k as int).push(l@[k as int]));
                k += 1;
            }
            return out;
        }
        assert(!is_tab()(l@[i as int]));
        i += 1;
    }
    proof {
        lemma_first_where_none(l@, is_tab());
    }
    l.clone()
}

/// The ids of the modules this mixer left loaded, read from the output of
/// `pactl list modules short`.
pub fn stale_module_ids(listing: &str) -> (r: Vec<u32>)
    ensures
        r@ == stale_ids(text_lines(listing@)),
{
    let cs = chars_of(listing);
    let lines = lines_of(cs.as_slice());
    let ghost ls = text_lines(listing@);
    assert(lines@.len() == ls.len());
    let mut out: Vec<u32> = Vec::new();
    let mut i: usize = 0;
    while i < lines.len()
        invariant
            i <= lines@.len(),
            ls == text_lines(listing@),
            lines@.len() == ls.len(),
            forall|k: int| 0 <= k < lines@.len() ==> #[trigger] lines@[k]@ == ls[k],
            out@ == stale_ids(ls.take(i as int)),
        decreases lines@.len() - i,
    {
        let line = &lines[i];
        let ghost l = ls[i as int];
        assert(line@ == l);
        assert(ls.take(i + 1).drop_last() =~= ls.take(i as int));
        assert(ls.take(i + 1).last() == l);
        let text = string_from_chars(line.as_slice());
        let stale = ((contains(text.as_str(), "module-null-sink") || contains(text.as_str(), "module-remap-source"))
            && (contains(text.as_str(), "audibian_return") || contains(text.as_str(), "audibian_")))
            || (contains(text.as_str(), "module-loopback") && contains(text.as_str(), "audibian_"));
        if stale {
            let field = first_field_of(line);
            let t = trim_chars(field.as_slice());
            match parse_u32(t.as_slice()) {
                Some(id) => out.push(id),
                None => {},
            }
        }
        i += 1;
    }
    assert(ls.take(ls.len() as int) =~= ls);
    out
}

/// Scans the lines of `pactl list sink-inputs` for the sink input owned by
/// module `module_id`: `current` is the number of the last `Sink Input #`
/// header seen (none when it was not a number); the scan ends at the first
/// `Owner Module: ` line that names `module_id`, giving `current` there.
pub open spec fn sink_input_owned_by(lines: Seq<Seq<char>>, module_id: u32, current: Option<u32>) -> Option<
    u32,
>
    decreases lines.len(),
{
    if lines.len() == 0 {
        None
    } else {
        let t = trimmed(lines[0]);
        let rest = lines.drop_first();
        if has_prefix(t, "Sink Input #"@) {
            sink_input_owned_by(rest, module_id, parse_u32_spec(t.skip("Sink Input #"@.len() as int)))
        } else if has_prefix(t, "Owner Module: "@) && parse_u32_spec(
            trimmed(t.skip("Owner Module: "@.len() as int)),
        ) == Some(module_id) {
            current
        } else {
            sink_input_owned_by(rest, module_id, current)
        }
    }
}

fn chars_after(v: &Vec<char>, k: usize) -> (r: Vec<char>)
    requires
        k <= v@.len(),
    ensures
        r@ == v@.skip(k as int),
{
    let mut out: Vec<char> = Vec::new();
    let mut i: usize = k;
    while i < v.len()
        invariant
            k <= i <= v@.len(),
            out@ == v@.subrange(k as int, i as int),
        decreases v@.len() - i,
    {
        out.push(v[i]);
        assert(v@.subrange(k as int, i + 1) =~= v@.subrange(k as int, i as int).push(v@[i as int]));
        i += 1;
    }
    assert(v@.subrange(k as int, v@.len() as int) =~= v@.skip(k as int));
    out
}

/// The sink input owned by module `module_id` (a loopback), read from the
/// output of `pactl list sink-inputs` (see [`sink_input_owned_by`]).
pub fn loopback_sink_input(listing: &str, module_id: u32) -> (r: Option<u32>)
    ensures
        r == sink_input_owned_by(text_lines(listing@), module_id, None),
{
    proof {
        reveal_strlit("Sink Input #");
        reveal_strlit("Owner Module: ");
    }
    let cs = chars_of(listing);
    let lines = lines_of(cs.as_slice());
    let ghost ls = text_lines(listing@);
    let mut current: Option<u32> = None;
    let mut i: usize = 0;
    assert(ls.skip(0) =~= ls);
    while i < lines.len()
        invariant
            i <= lines@.len(),
            ls == text_lines(listing@),
            lines@.len() == ls.len(),
            forall|k: int| 0 <= k < lines@.len() ==> #[trigger] lines@[k]@ == ls[k],
            sink_input_owned_by(ls, module_id, None) == sink_input_owned_by(ls.skip(i as int), module_id, current),
            "Sink Input #"@.len() == 12,
            "Owner Module: "@.len() == 14,
        decreases lines@.len() - i,
    {
        let ghost rest = ls.skip(i as int);
        assert(rest[0] == ls[i as int]);
        assert(rest.drop_first() =~= ls.skip(i + 1));
        assert(lines@[i as int]@ == ls[i as int]);
        let t = trim_chars(lines[i].as_slice());
        let ts = string_from_chars(t.as_slice());
        if starts_with(ts.as_str(), "Sink Input #") {
            let num = chars_after(&t, 12);
            current = parse_u32(num.as_slice());
        } else if starts_with(ts.as_str(), "Owner Module: ") {
            let num = chars_after(&t, 14);
            let nt = trim_chars(num.as_slice());
            match parse_u32(nt.as_slice()) {
                Some(mid) => {
                    if mid == module_id {
                        return current;
                    }
                },
                None => {},
            }
        }
        i += 1;
    }
    None
}

/// Reading back a module id that was printed gives the id: the answer of
/// `pactl load-module`, a number and a line end, parses to that number.
pub proof fn lemma_module_id_roundtrip(id: u32)
    ensures
        parse_u32_spec(trimmed(dec(id as nat) + "\n"@)) == Some(id),
{
    reveal_strlit("\n");
    let d = dec(id as nat);
    lemma_dec_digits(id as nat);
    lemma_parse_dec_roundtrip(id);
    let s = d + "\n"@;
    assert(!is_space(d[0])) by {
        assert(crate::text::is_digit(d[0]));
    }
    assert(s[0] == d[0]);
    assert(trim_start(s) == s);
    assert(s.drop_last() =~= d);
    assert(is_space(s.last()));
    assert(!is_space(d.last())) by {
        assert(crate::text::is_digit(d[d.len() - 1]));
    }
    assert(trim_end(d) == d);
    assert(trim_end(s) == d);
}

/// `"1"` for muted, `"0"` otherwise.
pub open spec fn mute_flag(muted: bool) -> Seq<char> {
    if muted {
        "1"@
    } else {
        "0"@
    }
}

/// The arguments of the `pactl` call that mutes or unmutes sink `sink`.
pub fn sink_mute_args(sink: &str, muted: bool) -> (r: Vec<String>)
    ensures
        texts(r@) == seq!["set-sink-mute"@, sink@, mute_flag(muted)],
{
    let mut v: Vec<String> = Vec::new();
    v.push(text_copy("set-sink-mute"));
    v.push(text_copy(sink));
    v.push(text_copy(if muted { "1" } else { "0" }));
    assert(texts(v@) =~= seq!["set-sink-mute"@, sink@, mute_flag(muted)]);
    v
}

/// The arguments of the `pactl` call that mutes or unmutes source `source`.
pub fn source_mute_args(source: &str, muted: bool) -> (r: Vec<String>)
    ensures
        texts(r@) == seq!["set-source-mute"@, source@, mute_flag(muted)],
{
    let mut v: Vec<String> = Vec::new();
    v.push(text_copy("set-source-mute"));
    v.push(text_copy(source));
    v.push(text_copy(if muted { "1" } else { "0" }));
    assert(texts(v@) =~= seq!["set-source-mute"@, source@, mute_flag(muted)]);
    v
}

/// The arguments of the `pactl` call that moves playback stream `stream_id`
/// into sink `sink`.
pub fn move_stream_args(stream_id: u32, sink: &str) -> (r: Vec<String>)
    ensures
        texts(r@) == seq!["move-sink-input"@, dec(stream_id as nat), sink@],
{
    let mut v: Vec<String> = Vec::new();
    v.push(text_copy("move-sink-input"));
    v.push(dec_u32(stream_id));
    v.push(text_copy(sink));
    assert(texts(v@) =~= seq!["move-sink-input"@, dec(stream_id as nat), sink@]);
    v
}

/// The arguments of the `pactl` call that sets sink input `sink_input` to
/// the volume `percent` (such as `100%`).
pub fn sink_input_volume_args(sink_input: u32, percent: &str) -> (r: Vec<String>)
    ensures
        texts(r@) == seq!["set-sink-input-volume"@, dec(sink_input as nat), percent@],
{
    let mut v: Vec<String> = Vec::new();
    v.push(text_copy("set-sink-input-volume"));
    v.push(dec_u32(sink_input));
    v.push(text_copy(percent));
    assert(texts(v@) =~= seq!["set-sink-input-volume"@, dec(sink_input as nat), percent@]);
    v
}

} // verus!

//! Names and configuration texts of the filter-chain effects (EQ virtual
//! sinks and noise suppression).
use vstd::prelude::*;

use crate::audio::eq::{
    build_filter_links, build_filter_nodes, chain_links, enabled_count, filter_nodes_of, numbers_view,
    BandNumbers, EqBand,
};
use crate::text::{chars_of, dec, dec_u32, has_prefix, join2, join3, starts_with, string_from_chars};

verus! {

broadcast use vstd::seq_lib::group_seq_properties;

/// Name of the EQ virtual sink placed in front of `target_sink`.
pub open spec fn eq_sink_name_of(target: Seq<char>) -> Seq<char> {
    "audibian-eq-"@ + target
}

/// Name of the denoised virtual source made from `source_name`.
pub open spec fn ns_source_name_of(source: Seq<char>) -> Seq<char> {
    "audibian-ns-"@ + source
}

/// Name of the EQ virtual sink placed in front of `target_sink`.
pub fn virtual_sink_name(target_sink: &str) -> (r: String)
    ensures
        r@ == eq_sink_name_of(target_sink@),
{
    join2("audibian-eq-", target_sink)
}

/// Name of the denoised virtual source made from `source_name`.
pub fn virtual_source_name(source_name: &str) -> (r: String)
    ensures
        r@ == ns_source_name_of(source_name@),
{
    join2("audibian-ns-", source_name)
}

/// Where the EQ configuration for `target_sink` is written.
pub fn eq_config_path(target_sink: &str) -> (r: String)
    ensures
        r@ == "/tmp/audibian-eq-"@ + target_sink@ + ".conf"@,
{
    join3("/tmp/audibian-eq-", target_sink, ".conf")
}

/// `c` with `/`, space and `:` replaced by `_`.
pub open spec fn file_safe_char(c: char) -> char {
    if c == '/' || c == ' ' || c == ':' {
        '_'
    } else {
        c
    }
}

/// `source_name` made safe for a file name.
pub fn file_safe(source_name: &str) -> (r: String)
    ensures
        r@ == source_name@.map_values(|c: char| file_safe_char(c)),
{
    let cs = chars_of(source_name);
    let mut out: Vec<char> = Vec::new();
    let mut i: usize = 0;
    while i < cs.len()
        invariant
            i <= cs@.len(),
            out@ == cs@.take(i as int).map_values(|c: char| file_safe_char(c)),
        decreases cs@.len() - i,
    {
        let c = cs[i];
        let d = if c == '/' || c == ' ' || c == ':' { '_' } else { c };
        out.push(d);
        assert(cs@.take(i + 1).map_values(|c: char| file_safe_char(c)) =~= cs@.take(
            i as int,
        ).map_values(|c: char| file_safe_char(c)).push(d));
        i += 1;
    }
    assert(cs@.take(cs@.len() as int) =~= cs@);
    string_from_chars(out.as_slice())
}

/// Where the noise-suppression configuration for `source_name` is written.
pub fn ns_config_path(source_name: &str) -> (r: String)
    ensures
        r@ == "/tmp/audibian-ns-"@ + source_name@.map_values(|c: char| file_safe_char(c))
            + ".conf"@,
{
    let safe = file_safe(source_name);
    join3("/tmp/audibian-ns-", safe.as_str(), ".conf")
}

/// A leftover effect configuration file: `audibian-eq-*.conf` or
/// `audibian-ns-*.conf`.
pub open spec fn is_orphan_config(name: Seq<char>) -> bool {
    (has_prefix(name, "audibian-eq-"@) || has_prefix(name, "audibian-ns-"@)) && name.len() >= 5
        && name.subrange(name.len() - 5, name.len() as int) == ".conf"@
}

fn ends_with_conf(name: &str) -> (r: bool)
    ensures
        r == (name@.len() >= 5 && name@.subrange(name@.len() - 5, name@.len() as int) == ".conf"@),
{
    let cs = chars_of(name);
    let n = cs.len();
    if n < 5 {
        return false;
    }
    proof {
        reveal_strlit(".conf");
    }
    let r = cs[n - 5] == '.' && cs[n - 4] == 'c' && cs[n - 3] == 'o' && cs[n - 2] == 'n' && cs[n
        - 1] == 'f';
    proof {
        let t = cs@.subrange(n - 5, n as int);
        if r {
            assert(t =~= ".conf"@);
        } else {
            if t == ".conf"@ {
                assert(t[0] == '.' && t[1] == 'c' && t[2] == 'o' && t[3] == 'n' && t[4] == 'f');
            }
        }
    }
    r
}

/// Whether the file `name` is a leftover effect configuration.
pub fn is_orphaned_config(name: &str) -> (r: bool)
    ensures
        r == is_orphan_config(name@),
{
    (starts_with(name, "audibian-eq-") || starts_with(name, "audibian-ns-")) && ends_with_conf(name)
}

/// The noise-suppression configuration that turns `source_name` into the
/// denoised virtual source `virtual_name`.
pub open spec fn ns_config_of(source: Seq<char>, virt: Seq<char>) -> Seq<char> {
    "# Audibian Noise Suppression (WebRTC) for "@ + source
        + "\ncontext.properties = {\n    log.level = 0\n}\n\ncontext.modules = [\n    { name = libpipewire-module-rt\n      args = { nice.level = -11 }\n      flags = [ ifexists nofail ]\n    }\n    { name = libpipewire-module-echo-cancel\n      args = {\n        library = aec/libspa-aec-webrtc\n        aec.args = {\n            webrtc.noise_suppression     = true\n            webrtc.gain_control          = false\n            webrtc.voice_detection       = false\n            webrtc.transient_suppression = true\n            webrtc.high_pass_filter      = true\n        }\n        capture.props = {\n            node.name   = \""@
        + virt + "-capture\"\n            node.target = \""@ + source
        + "\"\n        }\n        source.props = {\n            node.name        = \""@ + virt
        + "\"\n            node.description = \"Audibian NS ("@ + source
        + ")\"\n            media.class      = \"Audio/Source\"\n        }\n        sink.props = {\n            node.name        = \""@
        + virt + "-ref" @ + "\"\n            node.description = \"Audibian NS Ref ("@ + source
        + ")\"\n            media.class      = \"Audio/Sink\"\n        }\n        playback.props = {\n            node.name = \""@
        + virt + "-playback\"\n      }\n      }\n    }\n]\n"@
}

/// The noise-suppression configuration (see [`ns_config_of`]).
pub fn build_ns_config(source_name: &str, virtual_name: &str) -> (r: String)
    ensures
        r@ == ns_config_of(source_name@, virtual_name@),
{
    let mut r = join2("# Audibian Noise Suppression (WebRTC) for ", source_name);
    r.append(
        "\ncontext.properties = {\n    log.level = 0\n}\n\ncontext.modules = [\n    { name = libpipewire-module-rt\n      args = { nice.level = -11 }\n      flags = [ ifexists nofail ]\n    }\n    { name = libpipewire-module-echo-cancel\n      args = {\n        library = aec/libspa-aec-webrtc\n        aec.args = {\n            webrtc.noise_suppression     = true\n            webrtc.gain_control          = false\n            webrtc.voice_detection       = false\n            webrtc.transient_suppression = true\n            webrtc.high_pass_filter      = true\n        }\n        capture.props = {\n            node.name   = \"",
    );
    r.append(virtual_name);
    r.append("-capture\"\n            node.target = \"");
    r.append(source_name);
    r.append("\"\n        }\n        source.props = {\n            node.name        = \"");
    r.append(virtual_name);
    r.append("\"\n            node.description = \"Audibian NS (");
    r.append(source_name);
    r.append(
        ")\"\n            media.class      = \"Audio/Source\"\n        }\n        sink.props = {\n            node.name        = \"",
    );
    r.append(virtual_name);
    r.append("-ref");
    r.append("\"\n            node.description = \"Audibian NS Ref (");
    r.append(source_name);
    r.append(
        ")\"\n            media.class      = \"Audio/Sink\"\n        }\n        playback.props = {\n            node.name = \"",
    );
    r.append(virtual_name);
    r.append("-playback\"\n      }\n      }\n    }\n]\n");
    r
}

/// The filter-chain configuration of the EQ virtual sink `virt` placed in
/// front of `target`, with the filter graph's `nodes` and `links` sections.
pub open spec fn filter_chain_config_of(
    target: Seq<char>,
    virt: Seq<char>,
    nodes: Seq<char>,
    links: Seq<char>,
    rate: u32,
) -> Seq<char> {
    "# Audibian EQ filter-chain for "@ + target
        + "\ncontext.properties = {\n    log.level = 0\n}\n\ncontext.modules = [\n    { name = libpipewire-module-rt\n      args = { nice.level = -11 }\n      flags = [ ifexists nofail ]\n    }\n    { name = libpipewire-module-filter-chain\n      args = {\n        node.description = \"Audibian EQ ("@
        + virt
        + ")\"\n        media.name       = \"Audibian EQ\"\n        filter.graph = {\n            nodes = [\n"@
        + nodes + "\n            ]\n            links = [\n"@ + links
        + "\n            ]\n            inputs  = [ \"bq_0:In L\" \"bq_0:In R\" ]\n            outputs = [ \"bq_last:Out L\" \"bq_last:Out R\" ]\n        }\n        capture.props = {\n            node.name      = \""@
        + virt + "\"\n            media.class    = \"Audio/Sink\"\n            audio.rate     = "@ + dec(
        rate as nat,
    )
        + "\n            audio.channels = 2\n            audio.position = [ FL FR ]\n        }\n        playback.props = {\n            node.name   = \""@
        + virt + "-playback\"\n            audio.rate  = "@ + dec(rate as nat) + "\n            node.target = \""@
        + target + "\"\n        }\n      }\n    }\n]\n"@
}

/// The filter-chain configuration of an EQ virtual sink for `target_sink`
/// with `bands` (see [`filter_chain_config_of`]); `numbers[k]` are the
/// written numbers of `bands[k]`.
pub fn build_filter_chain_config(
    target_sink: &str,
    virtual_name: &str,
    bands: &[EqBand],
    numbers: &[BandNumbers],
    sample_rate: u32,
) -> (r: String)
    requires
        numbers@.len() == bands@.len(),
    ensures
        r@ == filter_chain_config_of(
            target_sink@,
            virtual_name@,
            filter_nodes_of(bands@, numbers_view(numbers@), false),
            chain_links(enabled_count(bands@)),
            sample_rate,
        ),
{
    let nodes = build_filter_nodes(bands, numbers, false);
    let links = build_filter_links(bands);
    let rate = dec_u32(sample_rate);
    let mut r = join2("# Audibian EQ filter-chain for ", target_sink);
    r.append(
        "\ncontext.properties = {\n    log.level = 0\n}\n\ncontext.modules = [\n    { name = libpipewire-module-rt\n      args = { nice.level = -11 }\n      flags = [ ifexists nofail ]\n    }\n    { name = libpipewire-module-filter-chain\n      args = {\n        node.description = \"Audibian EQ (",
    );
    r.append(virtual_name);
    r.append(
        ")\"\n        media.name       = \"Audibian EQ\"\n        filter.graph = {\n            nodes = [\n",
    );
    r.append(nodes.as_str());
    r.append("\n            ]\n            links = [\n");
    r.append(links.as_str());
    r.append(
        "\n            ]\n            inputs  = [ \"bq_0:In L\" \"bq_0:In R\" ]\n            outputs = [ \"bq_last:Out L\" \"bq_last:Out R\" ]\n        }\n        capture.props = {\n            node.name      = \"",
    );
    r.append(virtual_name);
    r.append("\"\n            media.class    = \"Audio/Sink\"\n            audio.rate     = ");
    r.append(rate.as_str());
    r.append(
        "\n            audio.channels = 2\n            audio.position = [ FL FR ]\n        }\n        playback.props = {\n            node.name   = \"",
    );
    r.append(virtual_name);
    r.append("-playback\"\n            audio.rate  = ");
    r.append(rate.as_str());
    r.append("\n            node.target = \"");
    r.append(target_sink);
    r.append("\"\n        }\n      }\n    }\n]\n");
    r
}

} // verus!

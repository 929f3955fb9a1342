//! Names used by the per-strip EQ filter-chains.
use vstd::prelude::*;

use crate::audio::eq::{
    build_filter_links, build_filter_nodes, chain_links, enabled_count, filter_nodes_of, numbers_view,
    BandNumbers, EqBand,
};
use crate::text::{dec, dec_u32, join2, join3};

verus! {

/// The EQ'd source a strip's filter-chain exposes: `<strip_sink>_eq`.
pub open spec fn eq_source_of(strip_sink: Seq<char>) -> Seq<char> {
    strip_sink + "_eq"@
}

/// The EQ'd source a strip's filter-chain exposes.
pub fn source_name_for(strip_sink: &str) -> (r: String)
    ensures
        r@ == eq_source_of(strip_sink@),
{
    join2(strip_sink, "_eq")
}

/// Where the per-strip EQ configuration of `strip_sink` is written.
pub fn strip_eq_config_path(strip_sink: &str) -> (r: String)
    ensures
        r@ == "/tmp/audibian-stripeq-"@ + strip_sink@ + ".conf"@,
{
    join3("/tmp/audibian-stripeq-", strip_sink, ".conf")
}

/// The filter-chain configuration of the EQ of strip `sink`: it captures
/// the strip's monitor and exposes the EQ'd source `eq_source`, with the
/// filter graph's `nodes` and `links` sections.
pub open spec fn strip_eq_config_of(
    sink: Seq<char>,
    eq_source: Seq<char>,
    nodes: Seq<char>,
    links: Seq<char>,
    rate: u32,
) -> Seq<char> {
    "# Audibian per-strip EQ for "@ + sink
        + "\ncontext.properties = {\n    log.level = 0\n}\n\ncontext.modules = [\n    { name = libpipewire-module-rt\n      args = { nice.level = -11 }\n      flags = [ ifexists nofail ]\n    }\n    { name = libpipewire-module-filter-chain\n      args = {\n        node.description = \"Audibian EQ ("@
        + eq_source
        + ")\"\n        media.name       = \"Audibian Strip EQ\"\n        filter.graph = {\n            nodes = [\n"@
        + nodes + "\n            ]\n            links = [\n"@ + links
        + "\n            ]\n            inputs  = [ \"bq_0:In L\"  \"bq_0:In R\" ]\n            outputs = [ \"bq_last:Out L\" \"bq_last:Out R\" ]\n        }\n        capture.props = {\n            node.name       = \""@
        + eq_source + ".capture\"\n            node.target     = \""@ + sink
        + ".monitor\"\n            audio.rate      = "@ + dec(rate as nat)
        + "\n            audio.channels  = 2\n            audio.position  = [ FL FR ]\n        }\n        playback.props = {\n            node.name       = \""@
        + eq_source + "\"\n            media.class     = \"Audio/Source\"\n            audio.rate      = "@
        + dec(rate as nat)
        + "\n            audio.channels  = 2\n            audio.position  = [ FL FR ]\n        }\n      }\n    }\n]\n"@
}

/// The filter-chain configuration of the EQ of strip `strip_sink` with
/// `bands` (see [`strip_eq_config_of`]); `numbers[k]` are the written
/// numbers of `bands[k]`.
pub fn build_strip_eq_config(
    strip_sink: &str,
    eq_source: &str,
    bands: &[EqBand],
    numbers: &[BandNumbers],
    sample_rate: u32,
) -> (r: String)
    requires
        numbers@.len() == bands@.len(),
    ensures
        r@ == strip_eq_config_of(
            strip_sink@,
            eq_source@,
            filter_nodes_of(bands@, numbers_view(numbers@), true),
            chain_links(enabled_count(bands@)),
            sample_rate,
        ),
{
    let nodes = build_filter_nodes(bands, numbers, true);
    let links = build_filter_links(bands);
    let rate = dec_u32(sample_rate);
    let mut r = join2("# Audibian per-strip EQ for ", strip_sink);
    r.append(
        "\ncontext.properties = {\n    log.level = 0\n}\n\ncontext.modules = [\n    { name = libpipewire-module-rt\n      args = { nice.level = -11 }\n      flags = [ ifexists nofail ]\n    }\n    { name = libpipewire-module-filter-chain\n      args = {\n        node.description = \"Audibian EQ (",
    );
    r.append(eq_source);
    r.append(
        ")\"\n        media.name       = \"Audibian Strip EQ\"\n        filter.graph = {\n            nodes = [\n",
    );
    r.append(nodes.as_str());
    r.append("\n            ]\n            links = [\n");
    r.append(links.as_str());
    r.append(
        "\n            ]\n            inputs  = [ \"bq_0:In L\"  \"bq_0:In R\" ]\n            outputs = [ \"bq_last:Out L\" \"bq_last:Out R\" ]\n        }\n        capture.props = {\n            node.name       = \"",
    );
    r.append(eq_source);
    r.append(".capture\"\n            node.target     = \"");
    r.append(strip_sink);
    r.append(".monitor\"\n            audio.rate      = ");
    r.append(rate.as_str());
    r.append(
        "\n            audio.channels  = 2\n            audio.position  = [ FL FR ]\n        }\n        playback.props = {\n            node.name       = \"",
    );
    r.append(eq_source);
    r.append("\"\n            media.class     = \"Audio/Source\"\n            audio.rate      = ");
    r.append(rate.as_str());
    r.append(
        "\n            audio.channels  = 2\n            audio.position  = [ FL FR ]\n        }\n      }\n    }\n]\n",
    );
    r
}

} // verus!

//! Applying a saved profile to the current graph, and capturing one.
//!
//! Nodes and ports are matched by name; each saved link whose ends resolve
//! becomes a link command, the others are reported back.
use vstd::prelude::*;

use crate::audio::graph::{
    insert_pos, insertion_sorted, lemma_insertion_sorted_elems, sorted_by_port_index, lemma_insertion_sorted_sorted, node_key, port_key, port_selected, sorted_ports, AudioGraph, AudioLink, AudioNode, AudioPort,
    Direction, PwCommand,
};
use crate::profiles::model::{AudioProfile, LinkSpec, VolumeSpec};
use crate::seqs::{first_where, find_key, has_key, index_of_key, key_at, lemma_first_where, lemma_unique_index};
use crate::text::{join3, same_text};

verus! {

broadcast use vstd::seq_lib::group_seq_properties;

pub struct ApplyResult {
    /// Number of links successfully requested: saved links that resolved to
    /// a link command.
    pub links_applied: usize,
    /// The saved links that could not be resolved, as
    /// `"<out node>:<out port> → <in node>:<in port>"`.
    pub unresolved_links: Vec<String>,
}

/// The last node of `s` named `name` (a lookup table built from the nodes
/// in order keeps the last one of each name).
pub open spec fn last_named(s: Seq<AudioNode>, name: Seq<char>) -> Option<AudioNode>
    decreases s.len(),
{
    if s.len() == 0 {
        None
    } else if s.last().name@ == name {
        Some(s.last())
    } else {
        last_named(s.drop_last(), name)
    }
}

pub open spec fn port_named(name: Seq<char>) -> spec_fn(AudioPort) -> bool {
    |p: AudioPort| p.name@ == name
}

/// The port of `ports` named `name`, else the first port, else none.
pub open spec fn pick_port(ports: Seq<AudioPort>, name: Seq<char>) -> Option<AudioPort> {
    match first_where(ports, port_named(name)) {
        Some(i) => Some(ports[i]),
        None => if ports.len() > 0 {
            Some(ports[0])
        } else {
            None
        },
    }
}

/// The (output port, input port) ids that saved link `l` resolves to in `g`.
pub open spec fn resolve_link(g: AudioGraph, l: LinkSpec) -> Option<(u32, u32)> {
    match (last_named(g.node_seq(), l.output_node@), last_named(g.node_seq(), l.input_node@)) {
        (Some(o), Some(i)) => match (
            pick_port(sorted_ports(g, o.id, Some(Direction::Output)), l.output_port@),
            pick_port(sorted_ports(g, i.id, Some(Direction::Input)), l.input_port@),
        ) {
            (Some(op), Some(ip)) => Some((op.id, ip.id)),
            _ => None,
        },
        _ => None,
    }
}

/// How a saved link is named in reports.
pub open spec fn link_label(l: LinkSpec) -> Seq<char> {
    l.output_node@ + ":"@ + l.output_port@ + " → "@ + l.input_node@ + ":"@ + l.input_port@
}

pub open spec fn link_command(g: AudioGraph, l: LinkSpec) -> Option<PwCommand> {
    match resolve_link(g, l) {
        Some((o, i)) => Some(PwCommand::CreateLink { output_port_id: o, input_port_id: i }),
        None => None,
    }
}

pub open spec fn unresolved_label(g: AudioGraph, l: LinkSpec) -> Option<Seq<char>> {
    match resolve_link(g, l) {
        Some(_) => None,
        None => Some(link_label(l)),
    }
}

pub open spec fn labels_of(v: Seq<String>) -> Seq<Seq<char>> {
    v.map_values(|s: String| s@)
}

fn last_node_named<'a>(nodes: &'a [AudioNode], name: &str) -> (r: Option<&'a AudioNode>)
    ensures
        r is Some == last_named(nodes@, name@) is Some,
        r matches Some(n) ==> last_named(nodes@, name@) == Some(*n),
{
    let mut i: usize = nodes.len();
    assert(nodes@.take(i as int) =~= nodes@);
    while i > 0
        invariant
            i <= nodes@.len(),
            last_named(nodes@, name@) == last_named(nodes@.take(i as int), name@),
        decreases i,
    {
        let ghost t = nodes@.take(i as int);
        assert(t.last() == nodes@[i - 1]);
        if same_text(nodes[i - 1].name.as_str(), name) {
            return Some(&nodes[i - 1]);
        }
        assert(t.drop_last() =~= nodes@.take(i - 1));
        i -= 1;
    }
    None
}

fn pick_port_of<'a>(ports: &Vec<&'a AudioPort>, name: &str) -> (r: Option<&'a AudioPort>)
    ensures
        r is Some == pick_port(ports@.map_values(|p: &AudioPort| *p), name@) is Some,
        r matches Some(p) ==> pick_port(ports@.map_values(|p: &AudioPort| *p), name@) == Some(*p),
{
    let ghost s = ports@.map_values(|p: &AudioPort| *p);
    proof {
        lemma_first_where(s, port_named(name@));
    }
    let mut i: usize = 0;
    while i < ports.len()
        invariant
            i <= ports@.len(),
            s == ports@.map_values(|p: &AudioPort| *p),
            forall|j: int| 0 <= j < i ==> !port_named(name@)(#[trigger] s[j]),
        decreases ports@.len() - i,
    {
        if same_text(ports[i].name.as_str(), name) {
            proof {
                crate::seqs::lemma_first_where_at(s, port_named(name@), i as int);
            }
            return Some(ports[i]);
        }
        i += 1;
    }
    proof {
        crate::seqs::lemma_first_where_none(s, port_named(name@));
    }
    if ports.len() > 0 {
        Some(ports[0])
    } else {
        None
    }
}

fn resolve(graph: &AudioGraph, l: &LinkSpec) -> (r: Option<(u32, u32)>)
    requires
        graph.wf(),
    ensures
        r == resolve_link(*graph, *l),
{
    let out_node = match last_node_named(graph.nodes(), l.output_node.as_str()) {
        Some(n) => n,
        None => return None,
    };
    let in_node = match last_node_named(graph.nodes(), l.input_node.as_str()) {
        Some(n) => n,
        None => return None,
    };
    let outs = graph.output_ports_for_node(out_node.id);
    let ins = graph.input_ports_for_node(in_node.id);
    match (pick_port_of(&outs, l.output_port.as_str()), pick_port_of(&ins, l.input_port.as_str())) {
        (Some(op), Some(ip)) => Some((op.id, ip.id)),
        _ => None,
    }
}

fn label(l: &LinkSpec) -> (r: String)
    ensures
        r@ == link_label(*l),
{
    let mut r = join3(l.output_node.as_str(), ":", l.output_port.as_str());
    r.append(" → ");
    r.append(l.input_node.as_str());
    r.append(":");
    r.append(l.input_port.as_str());
    r
}

/// The link commands that apply `profile`'s saved links to `graph`, and the
/// report: how many links were requested and which could not be resolved.
pub fn apply_profile(profile: &AudioProfile, graph: &AudioGraph) -> (r: (ApplyResult, Vec<PwCommand>))
    requires
        graph.wf(),
    ensures
        r.1@ == profile.links@.filter_map(|l: LinkSpec| link_command(*graph, l)),
        r.0.links_applied == r.1@.len(),
        labels_of(r.0.unresolved_links@) == profile.links@.filter_map(
            |l: LinkSpec| unresolved_label(*graph, l),
        ),
{
    let ghost links = profile.links@;
    let ghost cf = |l: LinkSpec| link_command(*graph, l);
    let ghost uf = |l: LinkSpec| unresolved_label(*graph, l);
    let mut cmds: Vec<PwCommand> = Vec::new();
    let mut unresolved: Vec<String> = Vec::new();
    let mut i: usize = 0;
    proof {
        assert(links.take(0) =~= Seq::<LinkSpec>::empty());
        assert(labels_of(unresolved@) =~= Seq::<Seq<char>>::empty());
    }
    while i < profile.links.len()
        invariant
            graph.wf(),
            links == profile.links@,
            i <= links.len(),
            cf == (|l: LinkSpec| link_command(*graph, l)),
            uf == (|l: LinkSpec| unresolved_label(*graph, l)),
            cmds@ == links.take(i as int).filter_map(cf),
            labels_of(unresolved@) == links.take(i as int).filter_map(uf),
            cmds@.len() <= i,
        decreases links.len() - i,
    {
        let l = &profile.links[i];
        proof {
            assert(links.take(i + 1).drop_last() =~= links.take(i as int));
            assert(links.take(i + 1).last() == *l);
        }
        match resolve(graph, l) {
            Some((o, p)) => {
                cmds.push(PwCommand::CreateLink { output_port_id: o, input_port_id: p });
            },
            None => {
                let ghost prev = unresolved@;
                unresolved.push(label(l));
                assert(labels_of(unresolved@) =~= labels_of(prev) + seq![link_label(*l)]);
            },
        }
        i += 1;
    }
    assert(links.take(links.len() as int) =~= links);
    let n = cmds.len();
    (ApplyResult { links_applied: n, unresolved_links: unresolved }, cmds)
}

/// The saved form of link `l`: its ends by node and port names, when all
/// four are known to the graph.
pub open spec fn link_spec_of(g: AudioGraph, l: AudioLink) -> Option<LinkSpec> {
    match (
        find_key(g.port_seq(), port_key(), l.output_port_id),
        find_key(g.port_seq(), port_key(), l.input_port_id),
        find_key(g.node_seq(), node_key(), l.output_node_id),
        find_key(g.node_seq(), node_key(), l.input_node_id),
    ) {
        (Some(op), Some(ip), Some(on), Some(inn)) => Some(
            LinkSpec {
                output_node: on.name,
                output_port: op.name,
                input_node: inn.name,
                input_port: ip.name,
            },
        ),
        _ => None,
    }
}

/// The saved volume of node `n`.
pub open spec fn volume_spec_of(n: AudioNode) -> VolumeSpec {
    VolumeSpec { node_name: n.name, volume: n.volume, muted: n.muted }
}

/// A new profile named `name` holding the graph's current links (by names)
/// and the volume of every node.
pub fn snapshot_profile(name: &str, graph: &AudioGraph) -> (p: AudioProfile)
    requires
        graph.wf(),
    ensures
        p.name@ == name@,
        p.links@ == graph.link_seq().filter_map(|l: AudioLink| link_spec_of(*graph, l)),
        p.volumes@ == graph.node_seq().map_values(|n: AudioNode| volume_spec_of(n)),
        p.volumes@.len() == graph.node_seq().len(),
        forall|k: int|
            0 <= k < p.volumes@.len() ==> {
                let v = #[trigger] p.volumes@[k];
                let n = graph.node_seq()[k];
                v.node_name@ == n.name@ && v.volume == n.volume && v.muted == n.muted
            },
        p.description@.len() == 0,
        exists|secs: u64| p.created_at@ == crate::profiles::model::timestamp_of(secs),
        p.default_sink is None,
        p.default_source is None,
        p.eq@.len() == 0,
        p.mixer_snapshot is None,
{
    let mut profile = AudioProfile::new(name);
    let links = graph.links();
    let ghost lf = |l: AudioLink| link_spec_of(*graph, l);
    let mut i: usize = 0;
    proof {
        assert(links@.take(0) =~= Seq::<AudioLink>::empty());
        assert(profile.links@ =~= links@.take(0).filter_map(lf));
    }
    while i < links.len()
        invariant
            graph.wf(),
            links@ == graph.link_seq(),
            i <= links@.len(),
            lf == (|l: AudioLink| link_spec_of(*graph, l)),
            profile.links@ == links@.take(i as int).filter_map(lf),
            profile.name@ == name@,
            profile.volumes@.len() == 0,
            profile.description@.len() == 0,
            exists|secs: u64| profile.created_at@ == crate::profiles::model::timestamp_of(secs),
            profile.default_sink is None,
            profile.default_source is None,
            profile.eq@.len() == 0,
            profile.mixer_snapshot is None,
        decreases links@.len() - i,
    {
        let l = &links[i];
        proof {
            assert(links@.take(i + 1).drop_last() =~= links@.take(i as int));
            assert(links@.take(i + 1).last() == *l);
        }
        match (
            graph.port(l.output_port_id),
            graph.port(l.input_port_id),
            graph.node(l.output_node_id),
            graph.node(l.input_node_id),
        ) {
            (Some(op), Some(ip), Some(on), Some(inn)) => {
                let spec = LinkSpec {
                    output_node: on.name.clone(),
                    output_port: op.name.clone(),
                    input_node: inn.name.clone(),
                    input_port: ip.name.clone(),
                };
                profile.links.push(spec);
            },
            _ => {},
        }
        i += 1;
    }
    assert(links@.take(links@.len() as int) =~= links@);
    let nodes = graph.nodes();
    let mut k: usize = 0;
    while k < nodes.len()
        invariant
            graph.wf(),
            nodes@ == graph.node_seq(),
            k <= nodes@.len(),
            profile.links@ == graph.link_seq().filter_map(|l: AudioLink| link_spec_of(*graph, l)),
            profile.volumes@ == nodes@.take(k as int).map_values(|n: AudioNode| volume_spec_of(n)),
            profile.name@ == name@,
            profile.description@.len() == 0,
            exists|secs: u64| profile.created_at@ == crate::profiles::model::timestamp_of(secs),
            profile.default_sink is None,
            profile.default_source is None,
            profile.eq@.len() == 0,
            profile.mixer_snapshot is None,
        decreases nodes@.len() - k,
    {
        let n = &nodes[k];
        profile.volumes.push(VolumeSpec { node_name: n.name.clone(), volume: n.volume, muted: n.muted });
        assert(nodes@.take(k + 1).map_values(|n: AudioNode| volume_spec_of(n)) =~= nodes@.take(
            k as int,
        ).map_values(|n: AudioNode| volume_spec_of(n)).push(volume_spec_of(*n)));
        k += 1;
    }
    assert(nodes@.take(nodes@.len() as int) =~= nodes@);
    proof {
        lemma_saved_volumes(graph.node_seq());
    }
    profile
}

/// The volumes a profile saves: one per node, in node order, each with the
/// node's own name, volume and mute flag.
pub proof fn lemma_saved_volumes(nodes: Seq<AudioNode>)
    ensures
        nodes.map_values(|n: AudioNode| volume_spec_of(n)).len() == nodes.len(),
        forall|k: int|
            0 <= k < nodes.len() ==> {
                let v = nodes.map_values(|n: AudioNode| volume_spec_of(n))[k];
                let n = #[trigger] nodes[k];
                v.node_name@ == n.name@ && v.volume == n.volume && v.muted == n.muted
            },
{
}


/// No two nodes share a name.
pub open spec fn node_names_distinct(s: Seq<AudioNode>) -> bool {
    forall|i: int, j: int|
        0 <= i < s.len() && 0 <= j < s.len() && i != j ==> #[trigger] s[i].name@ != #[trigger] s[j].name@
}

/// No two ports of one node pointing the same way share a name.
pub open spec fn port_names_distinct(s: Seq<AudioPort>) -> bool {
    forall|i: int, j: int|
        0 <= i < s.len() && 0 <= j < s.len() && i != j && s[i].node_id == s[j].node_id && s[i].direction
            == s[j].direction ==> #[trigger] s[i].name@ != #[trigger] s[j].name@
}

/// Link `l` joins ports of `g` that belong to its nodes and point the right
/// way, and both its nodes are in `g`.
pub open spec fn link_fits(g: AudioGraph, l: AudioLink) -> bool {
    &&& find_key(g.port_seq(), port_key(), l.output_port_id) matches Some(op) && op.node_id
        == l.output_node_id && op.direction == Direction::Output
    &&& find_key(g.port_seq(), port_key(), l.input_port_id) matches Some(ip) && ip.node_id
        == l.input_node_id && ip.direction == Direction::Input
    &&& has_key(g.node_seq(), node_key(), l.output_node_id)
    &&& has_key(g.node_seq(), node_key(), l.input_node_id)
}

proof fn lemma_last_named_unique(s: Seq<AudioNode>, k: int)
    requires
        0 <= k < s.len(),
        forall|j: int| 0 <= j < s.len() && j != k ==> #[trigger] s[j].name@ != s[k].name@,
    ensures
        last_named(s, s[k].name@) == Some(s[k]),
    decreases s.len(),
{
    if k < s.len() - 1 {
        let init = s.drop_last();
        assert(s.last().name@ != s[k].name@);
        assert forall|j: int| 0 <= j < init.len() && j != k implies #[trigger] init[j].name@ != init[k].name@ by {
            assert(init[j] == s[j]);
        }
        lemma_last_named_unique(init, k);
        assert(init[k] == s[k]);
    }
}

proof fn lemma_pick_port_unique(ports: Seq<AudioPort>, x: AudioPort)
    requires
        ports.contains(x),
        forall|y: AudioPort| ports.contains(y) && y.name@ == x.name@ ==> y == x,
    ensures
        pick_port(ports, x.name@) == Some(x),
{
    let p = port_named(x.name@);
    lemma_first_where(ports, p);
    let k = choose|k: int| 0 <= k < ports.len() && ports[k] == x;
    match first_where(ports, p) {
        Some(i) => {
            assert(ports.contains(ports[i]));
        },
        None => {
            assert(!p(ports[k]));
        },
    }
}

proof fn lemma_selected_port_found(g: AudioGraph, node_id: u32, d: Direction, op: AudioPort)
    requires
        g.port_seq().contains(op),
        op.node_id == node_id,
        op.direction == d,
        port_names_distinct(g.port_seq()),
    ensures
        pick_port(sorted_ports(g, node_id, Some(d)), op.name@) == Some(op),
{
    broadcast use vstd::seq_lib::group_filter_ensures;

    let ps = g.port_seq();
    let sel = port_selected(node_id, Some(d));
    let f = ps.filter(sel);
    lemma_insertion_sorted_elems(f);
    let m = choose|m: int| 0 <= m < ps.len() && ps[m] == op;
    assert(sel(ps[m]));
    assert(f.contains(op));
    assert forall|y: AudioPort| sorted_ports(g, node_id, Some(d)).contains(y) && y.name@ == op.name@
        implies y == op by {
        assert(f.contains(y));
        let i = choose|i: int| 0 <= i < f.len() && f[i] == y;
        assert(sel(f[i]));
        ps.lemma_filter_contains_rev(sel, y);
        let j = choose|j: int| 0 <= j < ps.len() && ps[j] == y;
        if j != m {
            assert(ps[j].node_id == ps[m].node_id && ps[j].direction == ps[m].direction);
            assert(ps[j].name@ != ps[m].name@);
        }
    }
    lemma_pick_port_unique(sorted_ports(g, node_id, Some(d)), op);
}

/// Saving a link of the graph by names and applying that saved link to the
/// same graph gives back the link's own ports, when node names are
/// distinct, port names are distinct among the ports of one node pointing
/// one way, and the link joins ports of its own nodes.
pub proof fn lemma_link_spec_roundtrip(g: AudioGraph, l: AudioLink)
    requires
        g.wf(),
        node_names_distinct(g.node_seq()),
        port_names_distinct(g.port_seq()),
        link_fits(g, l),
    ensures
        link_spec_of(g, l) is Some,
        resolve_link(g, link_spec_of(g, l).unwrap()) == Some((l.output_port_id, l.input_port_id)),
{
    let ns = g.node_seq();
    let ps = g.port_seq();
    let op = find_key(ps, port_key(), l.output_port_id).unwrap();
    let ip = find_key(ps, port_key(), l.input_port_id).unwrap();
    let on = find_key(ns, node_key(), l.output_node_id).unwrap();
    let inn = find_key(ns, node_key(), l.input_node_id).unwrap();
    let a = index_of_key(ps, port_key(), l.output_port_id);
    let b = index_of_key(ps, port_key(), l.input_port_id);
    let c = index_of_key(ns, node_key(), l.output_node_id);
    let e = index_of_key(ns, node_key(), l.input_node_id);
    assert(key_at(ps, port_key(), l.output_port_id, a));
    assert(key_at(ps, port_key(), l.input_port_id, b));
    assert(key_at(ns, node_key(), l.output_node_id, c));
    assert(key_at(ns, node_key(), l.input_node_id, e));
    assert(op == ps[a] && ip == ps[b] && on == ns[c] && inn == ns[e]);
    assert(ps.contains(op));
    assert(ps.contains(ip));
    assert forall|j: int| 0 <= j < ns.len() && j != c implies #[trigger] ns[j].name@ != ns[c].name@ by {
        assert(ns[j].name@ != ns[c].name@);
    }
    lemma_last_named_unique(ns, c);
    assert forall|j: int| 0 <= j < ns.len() && j != e implies #[trigger] ns[j].name@ != ns[e].name@ by {
        assert(ns[j].name@ != ns[e].name@);
    }
    lemma_last_named_unique(ns, e);
    assert(on.id == l.output_node_id);
    assert(inn.id == l.input_node_id);
    lemma_selected_port_found(g, on.id, Direction::Output, op);
    lemma_selected_port_found(g, inn.id, Direction::Input, ip);
    assert(op.id == l.output_port_id);
    assert(ip.id == l.input_port_id);
}

/// Node `id` of `g` has a port pointing `d`.
pub open spec fn has_port(g: AudioGraph, id: u32, d: Direction) -> bool {
    exists|k: int| 0 <= k < g.port_seq().len() && port_selected(id, Some(d))(#[trigger] g.port_seq()[k])
}

/// Both nodes that saved link `l` names are in `g`.
pub open spec fn ends_exist(g: AudioGraph, l: LinkSpec) -> bool {
    last_named(g.node_seq(), l.output_node@) is Some && last_named(g.node_seq(), l.input_node@) is Some
}

/// Each node that saved link `l` names, when it is in `g`, has a port
/// pointing the way its end of the link needs.
pub open spec fn ends_have_ports(g: AudioGraph, l: LinkSpec) -> bool {
    &&& last_named(g.node_seq(), l.output_node@) matches Some(o) ==> has_port(g, o.id, Direction::Output)
    &&& last_named(g.node_seq(), l.input_node@) matches Some(i) ==> has_port(g, i.id, Direction::Input)
}

/// The label of saved link `l` when a node it names is missing from `g`.
pub open spec fn missing_label(g: AudioGraph, l: LinkSpec) -> Option<Seq<char>> {
    if ends_exist(g, l) {
        None
    } else {
        Some(link_label(l))
    }
}

/// Port `port_id` is the one a link end at node `node_id`, pointing `d` and
/// naming port `name`, is made at: a port of that node pointing that way,
/// named `name` when the node has such a port, else one with the least port
/// number.
pub open spec fn port_chosen(g: AudioGraph, node_id: u32, d: Direction, name: Seq<char>, port_id: u32) -> bool {
    let ps = g.port_seq();
    let sel = port_selected(node_id, Some(d));
    exists|k: int|
        0 <= k < ps.len() && #[trigger] ps[k].id == port_id && sel(ps[k]) && (if (exists|j: int|
            0 <= j < ps.len() && sel(#[trigger] ps[j]) && ps[j].name@ == name) {
            ps[k].name@ == name
        } else {
            forall|j: int| 0 <= j < ps.len() && sel(#[trigger] ps[j]) ==> ps[k].port_index <= ps[j].port_index
        })
}

proof fn lemma_sorted_ports_contains(g: AudioGraph, node_id: u32, d: Direction)
    ensures
        forall|x: AudioPort|
            #[trigger] sorted_ports(g, node_id, Some(d)).contains(x) <==> (g.port_seq().contains(x)
                && port_selected(node_id, Some(d))(x)),
        sorted_by_port_index(sorted_ports(g, node_id, Some(d))),
{
    let ps = g.port_seq();
    let sel = port_selected(node_id, Some(d));
    let f = ps.filter(sel);
    lemma_insertion_sorted_elems(f);
    lemma_insertion_sorted_sorted(f);
    assert forall|x: AudioPort| #[trigger] f.contains(x) <==> (ps.contains(x) && sel(x)) by {
        if f.contains(x) {
            let i = choose|i: int| 0 <= i < f.len() && f[i] == x;
            ps.lemma_filter_pred(sel, i);
            ps.lemma_filter_contains_rev(sel, x);
        }
        if ps.contains(x) && sel(x) {
            let k = choose|k: int| 0 <= k < ps.len() && ps[k] == x;
            ps.lemma_filter_contains(sel, k);
        }
    }
}

proof fn lemma_pick_port_chosen(g: AudioGraph, node_id: u32, d: Direction, name: Seq<char>)
    requires
        has_port(g, node_id, d),
    ensures
        pick_port(sorted_ports(g, node_id, Some(d)), name) matches Some(p) && port_chosen(
            g,
            node_id,
            d,
            name,
            p.id,
        ),
{
    let ps = g.port_seq();
    let sel = port_selected(node_id, Some(d));
    let sp = sorted_ports(g, node_id, Some(d));
    lemma_sorted_ports_contains(g, node_id, d);
    let w = choose|k: int| 0 <= k < ps.len() && sel(#[trigger] ps[k]);
    assert(ps.contains(ps[w]));
    assert(sp.contains(ps[w]));
    assert(sp.len() > 0);
    lemma_first_where(sp, port_named(name));
    let chosen = pick_port(sp, name).unwrap();
    assert(sp.contains(chosen));
    assert(ps.contains(chosen) && sel(chosen));
    let k = choose|k: int| 0 <= k < ps.len() && ps[k] == chosen;
    match first_where(sp, port_named(name)) {
        Some(i) => {
            assert(chosen.name@ == name);
        },
        None => {
            assert(chosen == sp[0]);
            assert forall|j: int| 0 <= j < ps.len() && sel(#[trigger] ps[j]) implies ps[j].name@ != name
                && chosen.port_index <= ps[j].port_index by {
                assert(ps.contains(ps[j]));
                assert(sp.contains(ps[j]));
                let m = choose|m: int| 0 <= m < sp.len() && sp[m] == ps[j];
                assert(!port_named(name)(sp[m]));
                if m > 0 {
                    assert(sp[0].port_index <= sp[m].port_index);
                }
            }
        },
    }
    assert(ps[k].id == chosen.id);
}

/// A saved link whose nodes have ports pointing the ways its ends need
/// resolves exactly when both nodes it names are in the graph.
pub proof fn lemma_link_resolves_iff_ends_exist(g: AudioGraph, l: LinkSpec)
    requires
        ends_have_ports(g, l),
    ensures
        resolve_link(g, l) is Some <==> ends_exist(g, l),
{
    let ns = g.node_seq();
    if ends_exist(g, l) {
        let o = last_named(ns, l.output_node@).unwrap();
        let i = last_named(ns, l.input_node@).unwrap();
        lemma_pick_port_chosen(g, o.id, Direction::Output, l.output_port@);
        lemma_pick_port_chosen(g, i.id, Direction::Input, l.input_port@);
    }
}

/// Applying saved links to a graph whose named nodes have the ports their
/// link ends need reports exactly, in order, the links that name a node the
/// graph lacks; every saved link is either requested or reported.
pub proof fn lemma_unresolved_links_are_missing_ends(g: AudioGraph, links: Seq<LinkSpec>)
    requires
        forall|k: int| 0 <= k < links.len() ==> ends_have_ports(g, #[trigger] links[k]),
    ensures
        links.filter_map(|l: LinkSpec| unresolved_label(g, l)) == links.filter_map(
            |l: LinkSpec| missing_label(g, l),
        ),
        links.filter_map(|l: LinkSpec| link_command(g, l)).len() + links.filter_map(
            |l: LinkSpec| unresolved_label(g, l),
        ).len() == links.len(),
    decreases links.len(),
{
    if links.len() > 0 {
        let init = links.drop_last();
        assert forall|k: int| 0 <= k < init.len() implies ends_have_ports(g, #[trigger] init[k]) by {
            assert(init[k] == links[k]);
        }
        lemma_unresolved_links_are_missing_ends(g, init);
        lemma_link_resolves_iff_ends_exist(g, links.last());
        assert(ends_have_ports(g, links[links.len() - 1]));
    }
}

/// With node names distinct, a saved link whose two nodes are in the graph
/// with ports pointing the ways its ends need resolves to a link between
/// the port of the output node named as saved (else one with the least
/// port number) and the port of the input node chosen the same way.
pub proof fn lemma_link_ports_chosen(g: AudioGraph, l: LinkSpec, o: int, i: int)
    requires
        node_names_distinct(g.node_seq()),
        0 <= o < g.node_seq().len(),
        0 <= i < g.node_seq().len(),
        g.node_seq()[o].name@ == l.output_node@,
        g.node_seq()[i].name@ == l.input_node@,
        has_port(g, g.node_seq()[o].id, Direction::Output),
        has_port(g, g.node_seq()[i].id, Direction::Input),
    ensures
        resolve_link(g, l) matches Some((a, b)) && port_chosen(
            g,
            g.node_seq()[o].id,
            Direction::Output,
            l.output_port@,
            a,
        ) && port_chosen(g, g.node_seq()[i].id, Direction::Input, l.input_port@, b),
        link_command(g, l) is Some,
{
    let ns = g.node_seq();
    assert forall|j: int| 0 <= j < ns.len() && j != o implies #[trigger] ns[j].name@ != ns[o].name@ by {}
    lemma_last_named_unique(ns, o);
    assert forall|j: int| 0 <= j < ns.len() && j != i implies #[trigger] ns[j].name@ != ns[i].name@ by {}
    lemma_last_named_unique(ns, i);
    lemma_pick_port_chosen(g, ns[o].id, Direction::Output, l.output_port@);
    lemma_pick_port_chosen(g, ns[i].id, Direction::Input, l.input_port@);
}

} // verus!

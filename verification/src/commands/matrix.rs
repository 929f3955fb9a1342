//! Saving and re-creating the port-level links of the routing matrix.
use vstd::prelude::*;

use crate::audio::graph::{create, first_named, sorted_ports, AudioGraph, AudioPort, Direction, PwCommand};
use crate::commands::solo::texts;
use crate::matrix_config::{involves, MatrixConfig, MatrixNodeConn, MatrixNodeConnView, PortLink};
use crate::text::{same_text, text_copy};

verus! {

/// The first port of `ps` named `name`.
pub open spec fn port_named(ps: Seq<AudioPort>, name: Seq<char>) -> Option<AudioPort>
    decreases ps.len(),
{
    if ps.len() == 0 {
        None
    } else if ps[0].name@ == name {
        Some(ps[0])
    } else {
        port_named(ps.drop_first(), name)
    }
}

/// The link commands for the saved port links `links` between the output
/// ports `outs` and the input ports `ins`: a link whose ports are both
/// found (by name) is created; the others are skipped.
pub open spec fn links_for(outs: Seq<AudioPort>, ins: Seq<AudioPort>, links: Seq<PortLink>) -> Seq<PwCommand>
    decreases links.len(),
{
    if links.len() == 0 {
        Seq::empty()
    } else {
        let rest = links_for(outs, ins, links.drop_last());
        let l = links.last();
        match (port_named(outs, l.src@), port_named(ins, l.dst@)) {
            (Some(o), Some(i)) => rest.push(create(o, i)),
            _ => rest,
        }
    }
}

/// The link commands that re-create saved connection `c` in graph `g`:
/// nothing when either of its nodes is missing.
pub open spec fn conn_commands(g: AudioGraph, c: MatrixNodeConnView) -> Seq<PwCommand> {
    match (first_named(g.node_seq(), c.src_node), first_named(g.node_seq(), c.dst_node)) {
        (Some(s), Some(d)) => links_for(
            sorted_ports(g, s.id, Some(Direction::Output)),
            sorted_ports(g, d.id, Some(Direction::Input)),
            c.links,
        ),
        _ => Seq::empty(),
    }
}

/// The link commands of the connections `conns`, one after the other.
pub open spec fn conns_commands(g: AudioGraph, conns: Seq<MatrixNodeConnView>) -> Seq<PwCommand>
    decreases conns.len(),
{
    if conns.len() == 0 {
        Seq::empty()
    } else {
        conns_commands(g, conns.drop_last()) + conn_commands(g, conns.last())
    }
}

fn port_id_named(ps: &Vec<&AudioPort>, name: &str) -> (r: Option<u32>)
    ensures
        match port_named(ps@.map_values(|p: &AudioPort| *p), name@) {
            Some(p) => r == Some(p.id),
            None => r is None,
        },
{
    let ghost v = ps@.map_values(|p: &AudioPort| *p);
    let mut i: usize = 0;
    assert(v.skip(0) =~= v);
    while i < ps.len()
        invariant
            i <= ps@.len(),
            v == ps@.map_values(|p: &AudioPort| *p),
            port_named(v, name@) == port_named(v.skip(i as int), name@),
        decreases ps@.len() - i,
    {
        assert(v.skip(i as int)[0] == v[i as int]);
        assert(v.skip(i as int).drop_first() =~= v.skip(i + 1));
        if same_text(ps[i].name.as_str(), name) {
            return Some(ps[i].id);
        }
        i += 1;
    }
    None
}

fn conn_links(conn: &MatrixNodeConn, graph: &AudioGraph, out: &mut Vec<PwCommand>)
    ensures
        final(out)@ == old(out)@ + conn_commands(*graph, conn@),
{
    let src = graph.node_named(conn.src_node.as_str());
    let dst = graph.node_named(conn.dst_node.as_str());
    match (src, dst) {
        (Some(s), Some(d)) => {
            let outs = graph.output_ports_for_node(s.id);
            let ins = graph.input_ports_for_node(d.id);
            let ghost ov = sorted_ports(*graph, s.id, Some(Direction::Output));
            let ghost iv = sorted_ports(*graph, d.id, Some(Direction::Input));
            let ghost start = out@;
            let mut k: usize = 0;
            assert(conn.links@.take(0) =~= Seq::<PortLink>::empty());
            assert(out@ =~= start + links_for(ov, iv, conn.links@.take(0)));
            while k < conn.links.len()
                invariant
                    k <= conn.links@.len(),
                    outs@.map_values(|p: &AudioPort| *p) == ov,
                    ins@.map_values(|p: &AudioPort| *p) == iv,
                    out@ == start + links_for(ov, iv, conn.links@.take(k as int)),
                decreases conn.links@.len() - k,
            {
                let l = &conn.links[k];
                assert(conn.links@.take(k + 1).drop_last() =~= conn.links@.take(k as int));
                assert(conn.links@.take(k + 1).last() == *l);
                let o = port_id_named(&outs, l.src.as_str());
                let i = port_id_named(&ins, l.dst.as_str());
                match (o, i) {
                    (Some(oid), Some(iid)) => {
                        out.push(PwCommand::CreateLink { output_port_id: oid, input_port_id: iid });
                        assert(out@ =~= start + links_for(ov, iv, conn.links@.take(k + 1)));
                    },
                    _ => {},
                }
                k += 1;
            }
            assert(conn.links@.take(conn.links@.len() as int) =~= conn.links@);
        },
        _ => {
            assert(out@ =~= old(out)@ + conn_commands(*graph, conn@));
        },
    }
}

/// The link commands that re-create, with the ports present now, every saved
/// matrix connection that starts or ends at node `node_name`.
pub fn restore_matrix_connections(matrix_cfg: &MatrixConfig, graph: &AudioGraph, node_name: &str) -> (r: Vec<
    PwCommand,
>)
    ensures
        r@ == conns_commands(*graph, matrix_cfg@.filter(|c: MatrixNodeConnView| involves(c, node_name@))),
{
    let conns = matrix_cfg.connections_involving(node_name);
    let ghost cv = crate::matrix_config::conns_view(conns@.map_values(|c: &MatrixNodeConn| *c));
    let mut out: Vec<PwCommand> = Vec::new();
    let mut i: usize = 0;
    assert(cv.take(0) =~= Seq::<MatrixNodeConnView>::empty());
    while i < conns.len()
        invariant
            i <= conns@.len(),
            cv == crate::matrix_config::conns_view(conns@.map_values(|c: &MatrixNodeConn| *c)),
            out@ == conns_commands(*graph, cv.take(i as int)),
        decreases conns@.len() - i,
    {
        let c = conns[i];
        assert(cv.take(i + 1).drop_last() =~= cv.take(i as int));
        assert(cv.take(i + 1).last() == c@);
        conn_links(c, graph, &mut out);
        i += 1;
    }
    assert(cv.take(cv.len() as int) =~= cv);
    out
}

/// The port links given as pairs of names: every entry with at least two
/// names gives a link from its first to its second; shorter ones are
/// skipped.
pub open spec fn pair_links(pairs: Seq<Seq<Seq<char>>>) -> Seq<(Seq<char>, Seq<char>)>
    decreases pairs.len(),
{
    if pairs.len() == 0 {
        Seq::empty()
    } else {
        let rest = pair_links(pairs.drop_last());
        let p = pairs.last();
        if p.len() >= 2 {
            rest.push((p[0], p[1]))
        } else {
            rest
        }
    }
}

pub open spec fn port_links_view(v: Seq<PortLink>) -> Seq<(Seq<char>, Seq<char>)> {
    v.map_values(|l: PortLink| (l.src@, l.dst@))
}

pub open spec fn pairs_view(v: Seq<Vec<String>>) -> Seq<Seq<Seq<char>>> {
    v.map_values(|p: Vec<String>| texts(p@))
}

/// The port links named by `links` (see [`pair_links`]).
pub fn port_links_from_pairs(links: &Vec<Vec<String>>) -> (r: Vec<PortLink>)
    ensures
        port_links_view(r@) == pair_links(pairs_view(links@)),
{
    let ghost pv = pairs_view(links@);
    let mut out: Vec<PortLink> = Vec::new();
    let mut i: usize = 0;
    assert(pv.take(0) =~= Seq::<Seq<Seq<char>>>::empty());
    while i < links.len()
        invariant
            i <= links@.len(),
            pv == pairs_view(links@),
            port_links_view(out@) == pair_links(pv.take(i as int)),
        decreases links@.len() - i,
    {
        let pair = &links[i];
        assert(pv.take(i + 1).drop_last() =~= pv.take(i as int));
        assert(pv.take(i + 1).last() == texts(pair@));
        if pair.len() >= 2 {
            let ghost before = out@;
            out.push(PortLink { src: text_copy(pair[0].as_str()), dst: text_copy(pair[1].as_str()) });
            assert(port_links_view(out@) =~= port_links_view(before).push((pair@[0]@, pair@[1]@)));
        }
        i += 1;
    }
    assert(pv.take(pv.len() as int) =~= pv);
    out
}

} // verus!

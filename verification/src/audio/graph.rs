//! The audio graph: nodes, ports and links as the sound server reports them.
use vstd::prelude::*;

use crate::seqs::{
    first_where, lemma_first_where, lemma_first_where_at, lemma_first_where_none,
    find_key, has_key, key_at, keys_unique, lemma_filter_keys_unique, position_of, retain_where,
    upsert, upsert_by_key, lemma_upsert_unique,
};
use crate::text::{
    chars_of, contains, dec, dec_u32, text_copy, has_prefix, has_sub, lemma_text_lt_irreflexive, lemma_text_lt_transitive,
    same_text, starts_with, text_less, text_lt,
};

verus! {

broadcast use vstd::seq_lib::group_seq_properties;

#[derive(Debug, Clone, Copy, PartialEq, Eq, Structural)]
pub enum Direction {
    Input,
    Output,
}

#[derive(Debug, Clone, Copy, PartialEq, Eq, Structural)]
pub enum MediaType {
    Audio,
    Video,
    Midi,
    Unknown,
}

#[derive(Debug, Clone, Copy, PartialEq, Eq, Structural)]
pub enum NodeType {
    Source,
    Sink,
    Duplex,
    Filter,
    Unknown,
}

#[derive(Debug)]
pub struct AudioPort {
    pub id: u32,
    pub node_id: u32,
    pub name: String,
    pub direction: Direction,
    pub media_type: MediaType,
    /// Port number/order within the node
    pub port_index: u32,
}

#[derive(Debug)]
pub struct AudioNode {
    pub id: u32,
    pub name: String,
    pub nick: Option<String>,
    pub description: Option<String>,
    pub app_name: Option<String>,
    pub node_type: NodeType,
    pub media_class: Option<String>,
    /// Cached volume as the bit pattern of an `f32` in [0.0, 1.0].
    pub volume: u32,
    pub muted: bool,
}

#[derive(Debug, Clone, Copy, PartialEq, Eq, Structural)]
pub struct AudioLink {
    pub id: u32,
    pub output_node_id: u32,
    pub output_port_id: u32,
    pub input_node_id: u32,
    pub input_port_id: u32,
    pub active: bool,
}

pub(crate) fn copy_opt(o: &Option<String>) -> (r: Option<String>)
    ensures
        r == *o,
{
    match o {
        Some(s) => Some(s.clone()),
        None => None,
    }
}

impl Clone for AudioPort {
    fn clone(&self) -> (r: Self)
        ensures
            r == *self,
    {
        AudioPort {
            id: self.id,
            node_id: self.node_id,
            name: self.name.clone(),
            direction: self.direction,
            media_type: self.media_type,
            port_index: self.port_index,
        }
    }
}

impl Clone for AudioNode {
    fn clone(&self) -> (r: Self)
        ensures
            r == *self,
    {
        AudioNode {
            id: self.id,
            name: self.name.clone(),
            nick: copy_opt(&self.nick),
            description: copy_opt(&self.description),
            app_name: copy_opt(&self.app_name),
            node_type: self.node_type,
            media_class: copy_opt(&self.media_class),
            volume: self.volume,
            muted: self.muted,
        }
    }
}

/// The name shown for a node: its nick, else its description, else its
/// application name, else its node name.
pub open spec fn display_of(n: AudioNode) -> Seq<char> {
    match n.nick {
        Some(s) => s@,
        None => match n.description {
            Some(s) => s@,
            None => match n.app_name {
                Some(s) => s@,
                None => n.name@,
            },
        },
    }
}

impl AudioNode {
    pub fn display_name(&self) -> (r: &str)
        ensures
            r@ == display_of(*self),
    {
        match &self.nick {
            Some(s) => s.as_str(),
            None => match &self.description {
                Some(s) => s.as_str(),
                None => match &self.app_name {
                    Some(s) => s.as_str(),
                    None => self.name.as_str(),
                },
            },
        }
    }
}

pub open spec fn node_key() -> spec_fn(AudioNode) -> u32 {
    |n: AudioNode| n.id
}

pub open spec fn port_key() -> spec_fn(AudioPort) -> u32 {
    |p: AudioPort| p.id
}

pub open spec fn link_key() -> spec_fn(AudioLink) -> u32 {
    |l: AudioLink| l.id
}

/// The links that touch neither end of node `id`.
pub open spec fn link_avoids_node(id: u32) -> spec_fn(AudioLink) -> bool {
    |l: AudioLink| l.output_node_id != id && l.input_node_id != id
}

/// The links that touch neither end of port `id`.
pub open spec fn link_avoids_port(id: u32) -> spec_fn(AudioLink) -> bool {
    |l: AudioLink| l.output_port_id != id && l.input_port_id != id
}

/// Central audio graph model, kept in sync with the sound server's events.
/// Nodes, ports and links are each keyed by their id.
#[derive(Debug)]
pub struct AudioGraph {
    nodes: Vec<AudioNode>,
    ports: Vec<AudioPort>,
    links: Vec<AudioLink>,
}

impl AudioGraph {
    pub closed spec fn node_seq(&self) -> Seq<AudioNode> {
        self.nodes@
    }

    pub closed spec fn port_seq(&self) -> Seq<AudioPort> {
        self.ports@
    }

    pub closed spec fn link_seq(&self) -> Seq<AudioLink> {
        self.links@
    }

    /// Every id occurs once among the nodes, once among the ports and once
    /// among the links.
    pub open spec fn wf(&self) -> bool {
        &&& keys_unique(self.node_seq(), node_key())
        &&& keys_unique(self.port_seq(), port_key())
        &&& keys_unique(self.link_seq(), link_key())
    }

    pub fn new() -> (g: Self)
        ensures
            g.wf(),
            g.node_seq() == Seq::<AudioNode>::empty(),
            g.port_seq() == Seq::<AudioPort>::empty(),
            g.link_seq() == Seq::<AudioLink>::empty(),
    {
        AudioGraph { nodes: Vec::new(), ports: Vec::new(), links: Vec::new() }
    }

    pub fn nodes(&self) -> (r: &[AudioNode])
        ensures
            r@ == self.node_seq(),
    {
        self.nodes.as_slice()
    }

    pub fn ports(&self) -> (r: &[AudioPort])
        ensures
            r@ == self.port_seq(),
    {
        self.ports.as_slice()
    }

    pub fn links(&self) -> (r: &[AudioLink])
        ensures
            r@ == self.link_seq(),
    {
        self.links.as_slice()
    }

    /// Stores `node` under its id, replacing a node with the same id.
    pub fn add_node(&mut self, node: AudioNode)
        requires
            old(self).wf(),
        ensures
            final(self).wf(),
            final(self).node_seq() == upsert(old(self).node_seq(), node_key(), node),
            final(self).port_seq() == old(self).port_seq(),
            final(self).link_seq() == old(self).link_seq(),
    {
        let node_id_of = |n: &AudioNode| -> (r: u32)
            ensures
                r == n.id,
            { n.id };
        upsert_by_key(&mut self.nodes, node, node_id_of, Ghost(node_key()));
    }

    /// Removes node `id` together with its ports and every link that
    /// touches it.
    pub fn remove_node(&mut self, id: u32)
        requires
            old(self).wf(),
        ensures
            final(self).wf(),
            final(self).node_seq() == old(self).node_seq().filter(|n: AudioNode| n.id != id),
            final(self).port_seq() == old(self).port_seq().filter(|p: AudioPort| p.node_id != id),
            final(self).link_seq() == old(self).link_seq().filter(link_avoids_node(id)),
    {
        let ghost np = |n: AudioNode| n.id != id;
        let ghost pp = |p: AudioPort| p.node_id != id;
        let keep_node = |n: &AudioNode| -> (r: bool)
            ensures
                r == (n.id != id),
            { n.id != id };
        retain_where(
            &mut self.nodes,
            keep_node,
            Ghost(np),
        );
        let keep_port = |p: &AudioPort| -> (r: bool)
            ensures
                r == (p.node_id != id),
            { p.node_id != id };
        retain_where(
            &mut self.ports,
            keep_port,
            Ghost(pp),
        );
        let keep_link = |l: &AudioLink| -> (r: bool)
            ensures
                r == (l.output_node_id != id && l.input_node_id != id),
            { l.output_node_id != id && l.input_node_id != id };
        retain_where(
            &mut self.links,
            keep_link,
            Ghost(link_avoids_node(id)),
        );
        proof {
            lemma_filter_keys_unique(old(self).node_seq(), node_key(), np);
            lemma_filter_keys_unique(old(self).port_seq(), port_key(), pp);
            lemma_filter_keys_unique(old(self).link_seq(), link_key(), link_avoids_node(id));
        }
    }

    /// Stores `port` under its id.
    pub fn add_port(&mut self, port: AudioPort)
        requires
            old(self).wf(),
        ensures
            final(self).wf(),
            final(self).port_seq() == upsert(old(self).port_seq(), port_key(), port),
            final(self).node_seq() == old(self).node_seq(),
            final(self).link_seq() == old(self).link_seq(),
    {
        let port_id = |p: &AudioPort| -> (r: u32)
            ensures
                r == p.id,
            { p.id };
        upsert_by_key(
            &mut self.ports,
            port,
            port_id,
            Ghost(port_key()),
        );
    }

    /// Removes port `id` and every link that touches it.
    pub fn remove_port(&mut self, id: u32)
        requires
            old(self).wf(),
        ensures
            final(self).wf(),
            final(self).port_seq() == old(self).port_seq().filter(|p: AudioPort| p.id != id),
            final(self).link_seq() == old(self).link_seq().filter(link_avoids_port(id)),
            final(self).node_seq() == old(self).node_seq(),
    {
        let ghost pp = |p: AudioPort| p.id != id;
        let keep_port = |p: &AudioPort| -> (r: bool)
            ensures
                r == (p.id != id),
            { p.id != id };
        retain_where(
            &mut self.ports,
            keep_port,
            Ghost(pp),
        );
        let keep_link = |l: &AudioLink| -> (r: bool)
            ensures
                r == (l.output_port_id != id && l.input_port_id != id),
            { l.output_port_id != id && l.input_port_id != id };
        retain_where(
            &mut self.links,
            keep_link,
            Ghost(link_avoids_port(id)),
        );
        proof {
            lemma_filter_keys_unique(old(self).port_seq(), port_key(), pp);
            lemma_filter_keys_unique(old(self).link_seq(), link_key(), link_avoids_port(id));
        }
    }

    /// Stores `link` under its id.
    pub fn add_link(&mut self, link: AudioLink)
        requires
            old(self).wf(),
        ensures
            final(self).wf(),
            final(self).link_seq() == upsert(old(self).link_seq(), link_key(), link),
            final(self).node_seq() == old(self).node_seq(),
            final(self).port_seq() == old(self).port_seq(),
    {
        let link_id = |l: &AudioLink| -> (r: u32)
            ensures
                r == l.id,
            { l.id };
        upsert_by_key(
            &mut self.links,
            link,
            link_id,
            Ghost(link_key()),
        );
    }

    /// Removes link `id`.
    pub fn remove_link(&mut self, id: u32)
        requires
            old(self).wf(),
        ensures
            final(self).wf(),
            final(self).link_seq() == old(self).link_seq().filter(|l: AudioLink| l.id != id),
            final(self).node_seq() == old(self).node_seq(),
            final(self).port_seq() == old(self).port_seq(),
    {
        let ghost lp = |l: AudioLink| l.id != id;
        let keep_link = |l: &AudioLink| -> (r: bool)
            ensures
                r == (l.id != id),
            { l.id != id };
        retain_where(
            &mut self.links,
            keep_link,
            Ghost(lp),
        );
        proof {
            lemma_filter_keys_unique(old(self).link_seq(), link_key(), lp);
        }
    }

    /// The node with id `id`, if any.
    pub fn node(&self, id: u32) -> (r: Option<&AudioNode>)
        requires
            self.wf(),
        ensures
            r is Some == has_key(self.node_seq(), node_key(), id),
            r matches Some(n) ==> find_key(self.node_seq(), node_key(), id) == Some(*n),
    {
        let node_id_of = |n: &AudioNode| -> (r: u32)
            ensures
                r == n.id,
            { n.id };
        match position_of(
            &self.nodes,
            id,
            node_id_of,
            Ghost(node_key()),
        ) {
            Some(i) => {
                proof {
                    crate::seqs::lemma_unique_index(self.nodes@, node_key(), id, i as int);
                }
                Some(&self.nodes[i])
            },
            None => None,
        }
    }

    /// The port with id `id`, if any.
    pub fn port(&self, id: u32) -> (r: Option<&AudioPort>)
        requires
            self.wf(),
        ensures
            r is Some == has_key(self.port_seq(), port_key(), id),
            r matches Some(p) ==> find_key(self.port_seq(), port_key(), id) == Some(*p),
    {
        let port_id = |p: &AudioPort| -> (r: u32)
            ensures
                r == p.id,
            { p.id };
        match position_of(
            &self.ports,
            id,
            port_id,
            Ghost(port_key()),
        ) {
            Some(i) => {
                proof {
                    crate::seqs::lemma_unique_index(self.ports@, port_key(), id, i as int);
                }
                Some(&self.ports[i])
            },
            None => None,
        }
    }

    /// The first node (in the order they were added) named `name`, if any.
    pub fn node_named(&self, name: &str) -> (r: Option<&AudioNode>)
        ensures
            r is Some == first_named(self.node_seq(), name@) is Some,
            r matches Some(n) ==> first_named(self.node_seq(), name@) == Some(*n),
    {
        let mut i: usize = 0;
        assert(self.nodes@.skip(0) =~= self.nodes@);
        while i < self.nodes.len()
            invariant
                i <= self.nodes@.len(),
                first_named(self.nodes@, name@) == first_named(self.nodes@.skip(i as int), name@),
            decreases self.nodes@.len() - i,
        {
            assert(self.nodes@.skip(i as int)[0] == self.nodes@[i as int]);
            if same_text(self.nodes[i].name.as_str(), name) {
                return Some(&self.nodes[i]);
            }
            assert(self.nodes@.skip(i as int).drop_first() =~= self.nodes@.skip(i + 1));
            i += 1;
        }
        None
    }

    #[verifier::spinoff_prover]
    #[verifier::rlimit(40)]
    fn collect_ports(&self, node_id: u32, dir: Option<Direction>) -> (r: Vec<&AudioPort>)
        ensures
            r@.map_values(|p: &AudioPort| *p) == sorted_ports(*self, node_id, dir),
            r@.map_values(|p: &AudioPort| *p).to_multiset() == self.port_seq().filter(
                port_selected(node_id, dir),
            ).to_multiset(),
            sorted_by_port_index(r@.map_values(|p: &AudioPort| *p)),
    {
        let mut out: Vec<&AudioPort> = Vec::new();
        let ghost sel = port_selected(node_id, dir);
        let mut i: usize = 0;
        proof {
            reveal(Seq::filter);
            assert(self.ports@.take(0) =~= Seq::<AudioPort>::empty());
            assert(out@.map_values(|p: &AudioPort| *p) =~= Seq::<AudioPort>::empty());
        }
        while i < self.ports.len()
            invariant
                i <= self.ports@.len(),
                sel == port_selected(node_id, dir),
                out@.map_values(|p: &AudioPort| *p).to_multiset() == self.ports@.take(
                    i as int,
                ).filter(sel).to_multiset(),
                sorted_by_port_index(out@.map_values(|p: &AudioPort| *p)),
                out@.map_values(|p: &AudioPort| *p) == insertion_sorted(
                    self.ports@.take(i as int).filter(sel),
                ),
            decreases self.ports@.len() - i,
        {
            let p = &self.ports[i];
            proof {
                assert(self.ports@.take(i + 1) =~= self.ports@.take(i as int).push(*p));
                self.ports@.take(i as int).lemma_filter_push(*p, sel);
            }
            let wanted = p.node_id == node_id && match dir {
                Some(d) => p.direction == d,
                None => true,
            };
            if wanted {
                let ghost before = out@.map_values(|q: &AudioPort| *q);
                let mut k: usize = 0;
                while k < out.len() && out[k].port_index <= p.port_index
                    invariant
                        k <= out@.len(),
                        before == out@.map_values(|q: &AudioPort| *q),
                        forall|m: int| 0 <= m < k ==> (#[trigger] before[m]).port_index <= p.port_index,
                    decreases out@.len() - k,
                {
                    k += 1;
                }
                proof {
                    let t = self.ports@.take(i as int).filter(sel);
                    assert(t.push(*p).drop_last() =~= t);
                    if k < before.len() {
                        lemma_first_where_at(before, above_index(p.port_index), k as int);
                    } else {
                        lemma_first_where_none(before, above_index(p.port_index));
                    }
                }
                out.insert(k, p);
                proof {
                    let after = out@.map_values(|q: &AudioPort| *q);
                    assert(after =~= before.insert(k as int, *p));
                    vstd::seq_lib::to_multiset_insert(before, k as int, *p);
                    assert(sorted_by_port_index(after)) by {
                        assert forall|a: int, b: int|
                            0 <= a < b < after.len() implies (#[trigger] after[a]).port_index
                            <= (#[trigger] after[b]).port_index by {
                            if b < k {
                            } else if b == k {
                            } else if a < k {
                                assert(after[b] == before[b - 1]);
                                if k < before.len() {
                                    assert(before[k as int].port_index > p.port_index);
                                }
                            } else if a == k {
                                assert(after[b] == before[b - 1]);
                                assert(before[k as int].port_index > p.port_index);
                                assert(before[k as int].port_index <= before[b - 1].port_index);
                            } else {
                                assert(after[b] == before[b - 1]);
                                assert(after[a] == before[a - 1]);
                            }
                        }
                    }
                }
            }
            i += 1;
        }
        proof {
            assert(self.ports@.take(self.ports@.len() as int) =~= self.ports@);
        }
        out
    }

    /// The ports of node `node_id`, ordered by their port number.
    pub fn ports_for_node(&self, node_id: u32) -> (r: Vec<&AudioPort>)
        ensures
            r@.map_values(|p: &AudioPort| *p) == sorted_ports(*self, node_id, None),
            r@.map_values(|p: &AudioPort| *p).to_multiset() == self.port_seq().filter(
                port_selected(node_id, None),
            ).to_multiset(),
            sorted_by_port_index(r@.map_values(|p: &AudioPort| *p)),
    {
        self.collect_ports(node_id, None)
    }

    /// The output ports of node `node_id`, ordered by their port number.
    pub fn output_ports_for_node(&self, node_id: u32) -> (r: Vec<&AudioPort>)
        ensures
            r@.map_values(|p: &AudioPort| *p) == sorted_ports(*self, node_id, Some(Direction::Output)),
            r@.map_values(|p: &AudioPort| *p).to_multiset() == self.port_seq().filter(
                port_selected(node_id, Some(Direction::Output)),
            ).to_multiset(),
            sorted_by_port_index(r@.map_values(|p: &AudioPort| *p)),
    {
        self.collect_ports(node_id, Some(Direction::Output))
    }

    /// The input ports of node `node_id`, ordered by their port number.
    pub fn input_ports_for_node(&self, node_id: u32) -> (r: Vec<&AudioPort>)
        ensures
            r@.map_values(|p: &AudioPort| *p) == sorted_ports(*self, node_id, Some(Direction::Input)),
            r@.map_values(|p: &AudioPort| *p).to_multiset() == self.port_seq().filter(
                port_selected(node_id, Some(Direction::Input)),
            ).to_multiset(),
            sorted_by_port_index(r@.map_values(|p: &AudioPort| *p)),
    {
        self.collect_ports(node_id, Some(Direction::Input))
    }
}

/// Ports numbered above `index`.
pub open spec fn above_index(index: u32) -> spec_fn(AudioPort) -> bool {
    |p: AudioPort| p.port_index > index
}

/// Where insertion sort puts `x` in `t`: before the first port numbered above it.
pub open spec fn insert_pos(t: Seq<AudioPort>, x: AudioPort) -> int {
    match first_where(t, above_index(x.port_index)) {
        Some(j) => j,
        None => t.len() as int,
    }
}

/// `s` sorted by port number, keeping the order of equal numbers.
pub open spec fn insertion_sorted(s: Seq<AudioPort>) -> Seq<AudioPort>
    decreases s.len(),
{
    if s.len() == 0 {
        s
    } else {
        let t = insertion_sorted(s.drop_last());
        t.insert(insert_pos(t, s.last()), s.last())
    }
}

/// The ports of node `node_id` (pointing in direction `dir` when given),
/// sorted by port number, ties in the order they were added.
pub open spec fn sorted_ports(g: AudioGraph, node_id: u32, dir: Option<Direction>) -> Seq<AudioPort> {
    insertion_sorted(g.port_seq().filter(port_selected(node_id, dir)))
}

/// Port `p` belongs to node `node_id` and, when `dir` is given, points that way.
pub open spec fn port_selected(node_id: u32, dir: Option<Direction>) -> spec_fn(AudioPort) -> bool {
    |p: AudioPort|
        p.node_id == node_id && match dir {
            Some(d) => p.direction == d,
            None => true,
        }
}

/// Ports in non-decreasing order of their port number.
pub open spec fn sorted_by_port_index(s: Seq<AudioPort>) -> bool {
    forall|a: int, b: int|
        0 <= a < b < s.len() ==> (#[trigger] s[a]).port_index <= (#[trigger] s[b]).port_index
}

/// Sorting keeps the ports it was given, and no others.
pub proof fn lemma_insertion_sorted_elems(s: Seq<AudioPort>)
    ensures
        insertion_sorted(s).len() == s.len(),
        forall|x: AudioPort| #[trigger] insertion_sorted(s).contains(x) <==> s.contains(x),
    decreases s.len(),
{
    if s.len() > 0 {
        let init = s.drop_last();
        let x = s.last();
        lemma_insertion_sorted_elems(init);
        let t = insertion_sorted(init);
        let pos = insert_pos(t, x);
        lemma_first_where(t, above_index(x.port_index));
        assert(0 <= pos <= t.len());
        t.insert_ensures(pos, x);
        let r = t.insert(pos, x);
        assert(r == insertion_sorted(s));
        assert forall|y: AudioPort| #[trigger] r.contains(y) <==> s.contains(y) by {
            if r.contains(y) {
                let i = choose|i: int| 0 <= i < r.len() && r[i] == y;
                if i == pos {
                    assert(s[s.len() - 1] == y);
                } else if i < pos {
                    assert(t[i] == y);
                    assert(t.contains(y));
                    let j = choose|j: int| 0 <= j < init.len() && init[j] == y;
                    assert(s[j] == y);
                } else {
                    assert(r[i] == t[i - 1]);
                    assert(t.contains(y));
                    let j = choose|j: int| 0 <= j < init.len() && init[j] == y;
                    assert(s[j] == y);
                }
            }
            if s.contains(y) {
                let j = choose|j: int| 0 <= j < s.len() && s[j] == y;
                if j == s.len() - 1 {
                    assert(r[pos] == y);
                } else {
                    assert(init[j] == y);
                    assert(init.contains(y));
                    assert(t.contains(y));
                    let i = choose|i: int| 0 <= i < t.len() && t[i] == y;
                    if i < pos {
                        assert(r[i] == y);
                    } else {
                        assert(r[i + 1] == y);
                    }
                }
            }
        }
    }
}

/// Sorting orders ports by their port number.
#[verifier::spinoff_prover]
#[verifier::rlimit(40)]
pub proof fn lemma_insertion_sorted_sorted(s: Seq<AudioPort>)
    ensures
        sorted_by_port_index(insertion_sorted(s)),
    decreases s.len(),
{
    if s.len() > 0 {
        let init = s.drop_last();
        let x = s.last();
        lemma_insertion_sorted_sorted(init);
        let t = insertion_sorted(init);
        let pos = insert_pos(t, x);
        lemma_first_where(t, above_index(x.port_index));
        t.insert_ensures(pos, x);
        let r = t.insert(pos, x);
        assert(r == insertion_sorted(s));
        assert forall|a: int, b: int| 0 <= a < b < r.len() implies (#[trigger] r[a]).port_index
            <= (#[trigger] r[b]).port_index by {
            if b < pos {
                assert(r[a] == t[a] && r[b] == t[b]);
            } else if b == pos {
                assert(r[a] == t[a]);
                assert(!above_index(x.port_index)(t[a]));
            } else if a < pos {
                assert(r[a] == t[a] && r[b] == t[b - 1]);
                assert(!above_index(x.port_index)(t[a]));
                assert(above_index(x.port_index)(t[pos]));
                assert(t[pos].port_index <= t[b - 1].port_index);
            } else if a == pos {
                assert(r[b] == t[b - 1]);
                assert(above_index(x.port_index)(t[pos]));
                assert(t[pos].port_index <= t[b - 1].port_index);
            } else {
                assert(r[a] == t[a - 1] && r[b] == t[b - 1]);
            }
        }
    }
}

/// Ports pointing `d`.
pub open spec fn points(d: Direction) -> spec_fn(AudioPort) -> bool {
    |p: AudioPort| p.direction == d
}

/// A one-element sequence, filtered.
proof fn lemma_filter_single(x: AudioPort, q: spec_fn(AudioPort) -> bool)
    ensures
        seq![x].filter(q) == (if q(x) {
            seq![x]
        } else {
            Seq::<AudioPort>::empty()
        }),
{
    let e = Seq::<AudioPort>::empty();
    assert(e.push(x) =~= seq![x]);
    e.lemma_filter_push(x, q);
    reveal(Seq::filter);
    assert(e.filter(q) =~= e);
}

/// Sorting by port number keeps the order of equal numbers, so it commutes
/// with filtering.
#[verifier::spinoff_prover]
#[verifier::rlimit(60)]
pub proof fn lemma_filter_sorted_commute(s: Seq<AudioPort>, q: spec_fn(AudioPort) -> bool)
    ensures
        insertion_sorted(s).filter(q) == insertion_sorted(s.filter(q)),
    decreases s.len(),
{
    if s.len() == 0 {
        reveal(Seq::filter);
        assert(s.filter(q) =~= s);
    } else {
        let init = s.drop_last();
        let x = s.last();
        lemma_filter_sorted_commute(init, q);
        lemma_insertion_sorted_sorted(init);
        let t = insertion_sorted(init);
        let above = above_index(x.port_index);
        let pos = insert_pos(t, x);
        lemma_first_where(t, above);
        assert(0 <= pos <= t.len());
        assert(init.push(x) =~= s);
        init.lemma_filter_push(x, q);
        let lo = t.take(pos);
        let hi = t.skip(pos);
        let r = t.insert(pos, x);
        assert(r == insertion_sorted(s));
        assert(r =~= lo + seq![x] + hi);
        assert(t =~= lo + hi);
        let a = lo.filter(q);
        let b = hi.filter(q);
        Seq::filter_distributes_over_add(lo, hi, q);
        Seq::filter_distributes_over_add(lo + seq![x], hi, q);
        Seq::filter_distributes_over_add(lo, seq![x], q);
        lemma_filter_single(x, q);
        assert(t.filter(q) == a + b);
        if q(x) {
            assert(r.filter(q) == a + seq![x] + b);
            let u = init.filter(q);
            assert(s.filter(q) == u.push(x));
            assert(s.filter(q).drop_last() =~= u);
            assert(insertion_sorted(u) == a + b);
            let ab = a + b;
            assert forall|j: int| 0 <= j < a.len() implies !above(#[trigger] ab[j]) by {
                assert(ab[j] == a[j]);
                assert(a.contains(a[j]));
                lo.lemma_filter_contains_rev(q, a[j]);
                let m = choose|m: int| 0 <= m < lo.len() && lo[m] == a[j];
                assert(lo[m] == t[m]);
            }
            if b.len() > 0 {
                assert(ab[a.len() as int] == b[0]);
                assert(b.contains(b[0]));
                hi.lemma_filter_contains_rev(q, b[0]);
                let m = choose|m: int| 0 <= m < hi.len() && hi[m] == b[0];
                assert(hi[m] == t[pos + m]);
                assert(above(t[pos]));
                if m > 0 {
                    assert(t[pos].port_index <= t[pos + m].port_index);
                }
                crate::seqs::lemma_first_where_at(ab, above, a.len() as int);
            } else {
                assert(ab =~= a);
                crate::seqs::lemma_first_where_none(ab, above);
            }
            assert(insert_pos(ab, x) == a.len());
            assert(ab.insert(a.len() as int, x) =~= a + seq![x] + b);
        } else {
            assert(r.filter(q) =~= a + b);
        }
    }
}

/// Filtering by `p`, then by `q`, is filtering by a predicate that holds
/// where both do.
proof fn lemma_filter_then<T>(s: Seq<T>, p: spec_fn(T) -> bool, q: spec_fn(T) -> bool, pq: spec_fn(T) -> bool)
    requires
        forall|x: T| #[trigger] pq(x) == (p(x) && q(x)),
    ensures
        s.filter(p).filter(q) == s.filter(pq),
    decreases s.len(),
{
    if s.len() == 0 {
        reveal(Seq::filter);
        assert(s.filter(p) =~= s);
        assert(s.filter(pq) =~= s);
    } else {
        let init = s.drop_last();
        let x = s.last();
        lemma_filter_then(init, p, q, pq);
        assert(init.push(x) =~= s);
        init.lemma_filter_push(x, p);
        init.lemma_filter_push(x, pq);
        if p(x) {
            init.filter(p).lemma_filter_push(x, q);
        }
    }
}

/// The ports of a node pointing one way, in port-number order, are the
/// ports of that node in port-number order, kept when they point that way:
/// the two direction lists are the full list filtered, order kept.
pub proof fn lemma_direction_ports_filtered(g: AudioGraph, node_id: u32, d: Direction)
    ensures
        sorted_ports(g, node_id, Some(d)) == sorted_ports(g, node_id, None).filter(points(d)),
{
    let ps = g.port_seq();
    lemma_filter_sorted_commute(ps.filter(port_selected(node_id, None)), points(d));
    lemma_filter_then(ps, port_selected(node_id, None), points(d), port_selected(node_id, Some(d)));
}

/// The first node of `s` named `name`.
pub open spec fn first_named(s: Seq<AudioNode>, name: Seq<char>) -> Option<AudioNode>
    decreases s.len(),
{
    if s.len() == 0 {
        None
    } else if s[0].name@ == name {
        Some(s[0])
    } else {
        first_named(s.drop_first(), name)
    }
}

/// Position of a node type in lists: sources, filters, duplex, sinks, unknown.
pub open spec fn type_rank(t: NodeType) -> int {
    match t {
        NodeType::Source => 0,
        NodeType::Filter => 1,
        NodeType::Duplex => 2,
        NodeType::Sink => 3,
        NodeType::Unknown => 4,
    }
}

/// `a` is listed before `b`: by type rank, then by shown name.
pub open spec fn node_before(a: AudioNode, b: AudioNode) -> bool {
    type_rank(a.node_type) < type_rank(b.node_type) || (type_rank(a.node_type) == type_rank(
        b.node_type,
    ) && text_lt(display_of(a), display_of(b)))
}

/// Nodes with a recognised audio media class (`Audio*` or `Stream*`).
pub open spec fn listed_node(n: AudioNode) -> bool {
    match n.media_class {
        Some(c) => has_prefix(c@, "Audio"@) || has_prefix(c@, "Stream"@),
        None => false,
    }
}

/// Nodes in list order.
pub open spec fn sorted_nodes(s: Seq<AudioNode>) -> bool {
    forall|a: int, b: int| 0 <= a < b < s.len() ==> !node_before(#[trigger] s[b], #[trigger] s[a])
}

proof fn lemma_node_before_order(a: AudioNode, b: AudioNode, c: AudioNode)
    ensures
        !node_before(a, a),
        node_before(a, b) && node_before(b, c) ==> node_before(a, c),
{
    lemma_text_lt_irreflexive(display_of(a));
    if node_before(a, b) && node_before(b, c) {
        if type_rank(a.node_type) == type_rank(b.node_type) && type_rank(b.node_type) == type_rank(
            c.node_type,
        ) {
            lemma_text_lt_transitive(display_of(a), display_of(b), display_of(c));
        }
    }
}

fn rank_of(t: NodeType) -> (r: u8)
    ensures
        r as int == type_rank(t),
{
    match t {
        NodeType::Source => 0,
        NodeType::Filter => 1,
        NodeType::Duplex => 2,
        NodeType::Sink => 3,
        NodeType::Unknown => 4,
    }
}

fn listed_before(a: &AudioNode, b: &AudioNode) -> (r: bool)
    ensures
        r == node_before(*a, *b),
{
    let ra = rank_of(a.node_type);
    let rb = rank_of(b.node_type);
    if ra != rb {
        ra < rb
    } else {
        let da = chars_of(a.display_name());
        let db = chars_of(b.display_name());
        text_less(da.as_slice(), db.as_slice())
    }
}

fn is_listed(n: &AudioNode) -> (r: bool)
    ensures
        r == listed_node(*n),
{
    match &n.media_class {
        Some(c) => starts_with(c.as_str(), "Audio") || starts_with(c.as_str(), "Stream"),
        None => false,
    }
}

impl AudioGraph {
    /// The audio nodes (see [`listed_node`]): sources first, then filters,
    /// duplex nodes, sinks and the rest, each group by shown name.
    pub fn audio_nodes_sorted(&self) -> (r: Vec<&AudioNode>)
        ensures
            r@.map_values(|n: &AudioNode| *n).to_multiset() == self.node_seq().filter(
                |n: AudioNode| listed_node(n),
            ).to_multiset(),
            sorted_nodes(r@.map_values(|n: &AudioNode| *n)),
    {
        let ghost sel = |n: AudioNode| listed_node(n);
        let mut out: Vec<&AudioNode> = Vec::new();
        let mut i: usize = 0;
        proof {
            reveal(Seq::filter);
            assert(self.nodes@.take(0) =~= Seq::<AudioNode>::empty());
            assert(out@.map_values(|n: &AudioNode| *n) =~= Seq::<AudioNode>::empty());
        }
        while i < self.nodes.len()
            invariant
                i <= self.nodes@.len(),
                sel == (|n: AudioNode| listed_node(n)),
                out@.map_values(|n: &AudioNode| *n).to_multiset() == self.nodes@.take(
                    i as int,
                ).filter(sel).to_multiset(),
                sorted_nodes(out@.map_values(|n: &AudioNode| *n)),
            decreases self.nodes@.len() - i,
        {
            let x = &self.nodes[i];
            proof {
                assert(self.nodes@.take(i + 1) =~= self.nodes@.take(i as int).push(*x));
                self.nodes@.take(i as int).lemma_filter_push(*x, sel);
            }
            if is_listed(x) {
                let ghost before = out@.map_values(|q: &AudioNode| *q);
                let mut k: usize = 0;
                while k < out.len() && !listed_before(x, out[k])
                    invariant
                        k <= out@.len(),
                        before == out@.map_values(|q: &AudioNode| *q),
                        forall|m: int| 0 <= m < k ==> !node_before(*x, #[trigger] before[m]),
                    decreases out@.len() - k,
                {
                    k += 1;
                }
                out.insert(k, x);
                proof {
                    let after = out@.map_values(|q: &AudioNode| *q);
                    assert(after =~= before.insert(k as int, *x));
                    vstd::seq_lib::to_multiset_insert(before, k as int, *x);
                    assert forall|a: int, b: int| 0 <= a < b < after.len() implies !node_before(
                        #[trigger] after[b],
                        #[trigger] after[a],
                    ) by {
                        if b < k {
                        } else if b == k {
                        } else if a < k {
                            assert(after[b] == before[b - 1]);
                            assert(node_before(*x, before[k as int]));
                            lemma_node_before_order(before[b - 1], *x, before[k as int]);
                            lemma_node_before_order(before[b - 1], before[k as int], *x);
                            if b - 1 > k {
                                assert(!node_before(before[b - 1], before[k as int]));
                            }
                            if node_before(before[b - 1], before[a]) {
                                lemma_node_before_order(before[b - 1], before[a], *x);
                            }
                        } else if a == k {
                            assert(after[b] == before[b - 1]);
                            assert(node_before(*x, before[k as int]));
                            lemma_node_before_order(before[b - 1], *x, before[k as int]);
                            lemma_node_before_order(before[k as int], before[k as int], *x);
                        } else {
                            assert(after[b] == before[b - 1]);
                            assert(after[a] == before[a - 1]);
                        }
                    }
                }
            }
            i += 1;
        }
        proof {
            assert(self.nodes@.take(self.nodes@.len() as int) =~= self.nodes@);
        }
        out
    }
}

/// The node type a `media.class` property names.
pub open spec fn node_type_of_class(c: Seq<char>) -> NodeType {
    if has_sub(c, "Source"@) || has_prefix(c, "Stream/Output"@) {
        NodeType::Source
    } else if has_sub(c, "Sink"@) || has_prefix(c, "Stream/Input"@) {
        NodeType::Sink
    } else if has_sub(c, "Duplex"@) {
        NodeType::Duplex
    } else if has_sub(c, "Filter"@) {
        NodeType::Filter
    } else {
        NodeType::Unknown
    }
}

/// Parse a `media.class` property string into a NodeType.
pub fn node_type_from_media_class(class: &str) -> (r: NodeType)
    ensures
        r == node_type_of_class(class@),
{
    if contains(class, "Source") || starts_with(class, "Stream/Output") {
        NodeType::Source
    } else if contains(class, "Sink") || starts_with(class, "Stream/Input") {
        NodeType::Sink
    } else if contains(class, "Duplex") {
        NodeType::Duplex
    } else if contains(class, "Filter") {
        NodeType::Filter
    } else {
        NodeType::Unknown
    }
}

/// The media type a media name denotes.
pub open spec fn media_type_of(s: Seq<char>) -> MediaType {
    if s == "Audio"@ {
        MediaType::Audio
    } else if s == "Video"@ {
        MediaType::Video
    } else if s == "Midi"@ || s == "MIDI"@ {
        MediaType::Midi
    } else {
        MediaType::Unknown
    }
}

pub fn media_type_from_str(s: &str) -> (r: MediaType)
    ensures
        r == media_type_of(s@),
{
    if same_text(s, "Audio") {
        MediaType::Audio
    } else if same_text(s, "Video") {
        MediaType::Video
    } else if same_text(s, "Midi") || same_text(s, "MIDI") {
        MediaType::Midi
    } else {
        MediaType::Unknown
    }
}

/// Events the sound-server monitor reports.
#[derive(Debug)]
pub enum PwEvent {
    NodeAdded(AudioNode),
    NodeRemoved(u32),
    PortAdded(AudioPort),
    PortRemoved(u32),
    LinkAdded(AudioLink),
    LinkRemoved(u32),
    /// `volume` is the bit pattern of an `f32`.
    NodeVolume { node_id: u32, volume: u32, muted: bool },
    Disconnected,
}

/// Link commands: create a link between two ports, or destroy one.
#[derive(Debug, Clone, Copy, PartialEq, Eq, Structural)]
pub enum PwCommand {
    CreateLink { output_port_id: u32, input_port_id: u32 },
    DestroyLink { link_id: u32 },
    Quit,
}

/// A link from output port `o` to input port `i`.
pub open spec fn create(o: AudioPort, i: AudioPort) -> PwCommand {
    PwCommand::CreateLink { output_port_id: o.id, input_port_id: i.id }
}

/// Every output port linked to every input port, outputs in order.
pub open spec fn all_pairs(outs: Seq<AudioPort>, ins: Seq<AudioPort>) -> Seq<PwCommand>
    decreases outs.len(),
{
    if outs.len() == 0 {
        Seq::empty()
    } else {
        all_pairs(outs.drop_last(), ins) + ins.map_values(|i: AudioPort| create(outs.last(), i))
    }
}

/// Output `k` linked to input `k`, or to the first input when there are
/// fewer inputs; nothing when there are no inputs.
pub open spec fn paired_by_index(outs: Seq<AudioPort>, ins: Seq<AudioPort>) -> Seq<PwCommand> {
    if ins.len() == 0 {
        Seq::empty()
    } else {
        Seq::new(
            outs.len(),
            |k: int| create(outs[k], if k < ins.len() { ins[k] } else { ins[0] }),
        )
    }
}

/// The links that connect the ports `outs` to the ports `ins`.
pub open spec fn link_plan(outs: Seq<AudioPort>, ins: Seq<AudioPort>, mono_expand: bool) -> Seq<
    PwCommand,
> {
    if mono_expand {
        all_pairs(outs, ins)
    } else {
        paired_by_index(outs, ins)
    }
}

/// The links of `g` going from node `src` to node `dst`.
pub open spec fn links_between(src: u32, dst: u32) -> spec_fn(AudioLink) -> bool {
    |l: AudioLink| l.output_node_id == src && l.input_node_id == dst
}

pub open spec fn destroy(l: AudioLink) -> PwCommand {
    PwCommand::DestroyLink { link_id: l.id }
}

/// Connecting by channel: with at least one input there is exactly one link
/// per output port, in output order, and output `k` goes to input `k`, or to
/// the first input when `k` is past the last input.
pub proof fn lemma_paired_links(outs: Seq<AudioPort>, ins: Seq<AudioPort>)
    requires
        ins.len() > 0,
    ensures
        link_plan(outs, ins, false).len() == outs.len(),
        forall|k: int|
            0 <= k < outs.len() ==> #[trigger] link_plan(outs, ins, false)[k] == (PwCommand::CreateLink {
                output_port_id: outs[k].id,
                input_port_id: if k < ins.len() {
                    ins[k].id
                } else {
                    ins[0].id
                },
            }),
{
}

/// With no input port there is nothing to link, whichever way.
pub proof fn lemma_no_inputs_no_links(outs: Seq<AudioPort>, ins: Seq<AudioPort>, mono_expand: bool)
    requires
        ins.len() == 0,
    ensures
        link_plan(outs, ins, mono_expand).len() == 0,
    decreases outs.len(),
{
    if mono_expand && outs.len() > 0 {
        lemma_no_inputs_no_links(outs.drop_last(), ins, true);
    }
}

/// Connecting every output to every input: one link per (output, input)
/// pair, outputs in order and, for each, inputs in order, so that the link
/// at `a * ins.len() + b` joins output `a` to input `b`.
pub proof fn lemma_all_pairs_links(outs: Seq<AudioPort>, ins: Seq<AudioPort>)
    ensures
        link_plan(outs, ins, true).len() == outs.len() * ins.len(),
        forall|a: int, b: int|
            0 <= a < outs.len() && 0 <= b < ins.len() ==> link_plan(outs, ins, true)[a * ins.len() + b]
                == (PwCommand::CreateLink { output_port_id: outs[a].id, input_port_id: ins[b].id }),
    decreases outs.len(),
{
    let m = ins.len() as int;
    if outs.len() == 0 {
        assert(outs.len() * ins.len() == 0) by (nonlinear_arith)
            requires
                outs.len() == 0,
        ;
    } else {
        let init = outs.drop_last();
        let n = outs.len() as int;
        lemma_all_pairs_links(init, ins);
        let head = all_pairs(init, ins);
        let row = ins.map_values(|i: AudioPort| create(outs.last(), i));
        assert(all_pairs(outs, ins) == head + row);
        assert(head.len() == (n - 1) * m);
        assert((n - 1) * m + m == n * m) by (nonlinear_arith);
        assert forall|a: int, b: int| 0 <= a < n && 0 <= b < m implies all_pairs(outs, ins)[a * m + b]
            == (PwCommand::CreateLink { output_port_id: outs[a].id, input_port_id: ins[b].id }) by {
            if a < n - 1 {
                assert(a * m + b < (n - 1) * m) by (nonlinear_arith)
                    requires
                        0 <= a < n - 1,
                        0 <= b < m,
                ;
                assert(0 <= a * m + b) by (nonlinear_arith)
                    requires
                        0 <= a,
                        0 <= b,
                        0 <= m,
                ;
                assert(init[a] == outs[a]);
                assert(all_pairs(outs, ins)[a * m + b] == head[a * m + b]);
            } else {
                assert(a * m + b == (n - 1) * m + b) by (nonlinear_arith)
                    requires
                        a == n - 1,
                ;
                assert(all_pairs(outs, ins)[a * m + b] == row[b]);
            }
        }
    }
}

pub(crate) fn plan_links(outs: &Vec<&AudioPort>, ins: &Vec<&AudioPort>, mono_expand: bool) -> (r: Vec<PwCommand>)
    ensures
        r@ == link_plan(
            outs@.map_values(|p: &AudioPort| *p),
            ins@.map_values(|p: &AudioPort| *p),
            mono_expand,
        ),
{
    let ghost o = outs@.map_values(|p: &AudioPort| *p);
    let ghost n = ins@.map_values(|p: &AudioPort| *p);
    let mut out: Vec<PwCommand> = Vec::new();
    if mono_expand {
        let mut a: usize = 0;
        assert(o.take(0) =~= Seq::<AudioPort>::empty());
        assert(out@ =~= all_pairs(o.take(0), n));
        while a < outs.len()
            invariant
                a <= o.len(),
                o == outs@.map_values(|p: &AudioPort| *p),
                n == ins@.map_values(|p: &AudioPort| *p),
                out@ == all_pairs(o.take(a as int), n),
            decreases o.len() - a,
        {
            let mut b: usize = 0;
            let ghost base = out@;
            assert(n.take(0).map_values(|i: AudioPort| create(o[a as int], i)) =~= Seq::<
                PwCommand,
            >::empty());
            while b < ins.len()
                invariant
                    a < o.len(),
                    b <= n.len(),
                    o == outs@.map_values(|p: &AudioPort| *p),
                    n == ins@.map_values(|p: &AudioPort| *p),
                    out@ == base + n.take(b as int).map_values(
                        |i: AudioPort| create(o[a as int], i),
                    ),
                decreases n.len() - b,
            {
                out.push(PwCommand::CreateLink { output_port_id: outs[a].id, input_port_id: ins[b].id });
                assert(n.take(b + 1).map_values(|i: AudioPort| create(o[a as int], i)) =~= n.take(
                    b as int,
                ).map_values(|i: AudioPort| create(o[a as int], i)).push(create(o[a as int], n[b as int])));
                b += 1;
            }
            proof {
                assert(n.take(n.len() as int) =~= n);
                assert(o.take(a + 1).drop_last() =~= o.take(a as int));
                assert(o.take(a + 1).last() == o[a as int]);
            }
            a += 1;
        }
        assert(o.take(o.len() as int) =~= o);
    } else if ins.len() > 0 {
        let mut k: usize = 0;
        while k < outs.len()
            invariant
                k <= o.len(),
                n.len() > 0,
                o == outs@.map_values(|p: &AudioPort| *p),
                n == ins@.map_values(|p: &AudioPort| *p),
                out@ == paired_by_index(o, n).take(k as int),
            decreases o.len() - k,
        {
            let target = if k < ins.len() { ins[k].id } else { ins[0].id };
            out.push(PwCommand::CreateLink { output_port_id: outs[k].id, input_port_id: target });
            assert(paired_by_index(o, n).take(k + 1) =~= paired_by_index(o, n).take(k as int).push(
                paired_by_index(o, n)[k as int],
            ));
            k += 1;
        }
        assert(paired_by_index(o, n).take(o.len() as int) =~= paired_by_index(o, n));
    } else {
        assert(out@ =~= paired_by_index(o, n));
    }
    out
}

impl AudioGraph {
    /// Applies one monitor event to the graph.
    pub fn apply_event(&mut self, event: PwEvent)
        requires
            old(self).wf(),
        ensures
            final(self).wf(),
            match event {
                PwEvent::NodeAdded(n) => final(self).node_seq() == upsert(old(self).node_seq(), node_key(), n)
                    && final(self).port_seq() == old(self).port_seq() && final(self).link_seq()
                    == old(self).link_seq(),
                PwEvent::NodeRemoved(id) => final(self).node_seq() == old(self).node_seq().filter(
                    |n: AudioNode| n.id != id,
                ) && final(self).port_seq() == old(self).port_seq().filter(
                    |p: AudioPort| p.node_id != id,
                ) && final(self).link_seq() == old(self).link_seq().filter(link_avoids_node(id)),
                PwEvent::PortAdded(p) => final(self).port_seq() == upsert(old(self).port_seq(), port_key(), p)
                    && final(self).node_seq() == old(self).node_seq() && final(self).link_seq()
                    == old(self).link_seq(),
                PwEvent::PortRemoved(id) => final(self).port_seq() == old(self).port_seq().filter(
                    |p: AudioPort| p.id != id,
                ) && final(self).link_seq() == old(self).link_seq().filter(link_avoids_port(id))
                    && final(self).node_seq() == old(self).node_seq(),
                PwEvent::LinkAdded(l) => final(self).link_seq() == upsert(old(self).link_seq(), link_key(), l)
                    && final(self).node_seq() == old(self).node_seq() && final(self).port_seq()
                    == old(self).port_seq(),
                PwEvent::LinkRemoved(id) => final(self).link_seq() == old(self).link_seq().filter(
                    |l: AudioLink| l.id != id,
                ) && final(self).node_seq() == old(self).node_seq() && final(self).port_seq()
                    == old(self).port_seq(),
                PwEvent::NodeVolume { node_id, volume, muted } => final(self).port_seq() == old(
                    self,
                ).port_seq() && final(self).link_seq() == old(self).link_seq() && (if has_key(
                    old(self).node_seq(),
                    node_key(),
                    node_id,
                ) {
                    final(self).node_seq() == old(self).node_seq().update(
                        crate::seqs::index_of_key(old(self).node_seq(), node_key(), node_id),
                        AudioNode {
                            volume,
                            muted,
                            ..old(self).node_seq()[crate::seqs::index_of_key(
                                old(self).node_seq(),
                                node_key(),
                                node_id,
                            )]
                        },
                    )
                } else {
                    final(self).node_seq() == old(self).node_seq()
                }),
                PwEvent::Disconnected => *final(self) == *old(self),
            },
    {
        match event {
            PwEvent::NodeAdded(n) => self.add_node(n),
            PwEvent::NodeRemoved(id) => self.remove_node(id),
            PwEvent::PortAdded(p) => self.add_port(p),
            PwEvent::PortRemoved(id) => self.remove_port(id),
            PwEvent::LinkAdded(l) => self.add_link(l),
            PwEvent::LinkRemoved(id) => self.remove_link(id),
            PwEvent::NodeVolume { node_id, volume, muted } => {
                let node_id_of = |n: &AudioNode| -> (r: u32)
                    ensures
                        r == n.id,
                    { n.id };
                match position_of(&self.nodes, node_id, node_id_of, Ghost(node_key())) {
                    Some(i) => {
                        proof {
                            crate::seqs::lemma_unique_index(self.nodes@, node_key(), node_id, i as int);
                        }
                        let mut n = self.nodes[i].clone();
                        n.volume = volume;
                        n.muted = muted;
                        self.nodes.set(i, n);
                        proof {
                            assert forall|a: int, b: int|
                                0 <= a < self.nodes@.len() && 0 <= b < self.nodes@.len() && a
                                    != b implies node_key()(#[trigger] self.nodes@[a]) != node_key()(
                                #[trigger] self.nodes@[b],
                            ) by {
                                assert(node_key()(self.nodes@[a]) == node_key()(old(self).nodes@[a]));
                                assert(node_key()(self.nodes@[b]) == node_key()(old(self).nodes@[b]));
                            }
                        }
                    },
                    None => {},
                }
            },
            PwEvent::Disconnected => {},
        }
    }

    /// The link commands that connect node `src_name` to node `dst_name`
    /// (the first node of each name): each output port to every input port
    /// when `mono_expand`, otherwise output `k` to input `k` (or to the first
    /// input when there are fewer inputs). Nothing when either node is missing.
    pub fn connect_nodes(&self, src_name: &str, dst_name: &str, mono_expand: bool) -> (r: Vec<
        PwCommand,
    >)
        ensures
            match (first_named(self.node_seq(), src_name@), first_named(self.node_seq(), dst_name@)) {
                (Some(src), Some(dst)) => r@ == link_plan(
                    sorted_ports(*self, src.id, Some(Direction::Output)),
                    sorted_ports(*self, dst.id, Some(Direction::Input)),
                    mono_expand,
                ),
                _ => r@.len() == 0,
            },
    {
        let src = self.node_named(src_name);
        let dst = self.node_named(dst_name);
        match (src, dst) {
            (Some(s), Some(d)) => {
                let outs = self.output_ports_for_node(s.id);
                let ins = self.input_ports_for_node(d.id);
                plan_links(&outs, &ins, mono_expand)
            },
            _ => Vec::new(),
        }
    }

    /// The commands that destroy every link from node `src_name` to node
    /// `dst_name` (the first node of each name), in link order.
    pub fn disconnect_nodes(&self, src_name: &str, dst_name: &str) -> (r: Vec<PwCommand>)
        ensures
            match (first_named(self.node_seq(), src_name@), first_named(self.node_seq(), dst_name@)) {
                (Some(src), Some(dst)) => r@ == self.link_seq().filter(
                    links_between(src.id, dst.id),
                ).map_values(|l: AudioLink| destroy(l)),
                _ => r@.len() == 0,
            },
    {
        let src = self.node_named(src_name);
        let dst = self.node_named(dst_name);
        match (src, dst) {
            (Some(s), Some(d)) => {
                let ghost pred = links_between(s.id, d.id);
                let mut out: Vec<PwCommand> = Vec::new();
                let mut i: usize = 0;
                proof {
                    reveal(Seq::filter);
                    assert(self.links@.take(0) =~= Seq::<AudioLink>::empty());
                    assert(out@ =~= self.links@.take(0).filter(pred).map_values(
                        |l: AudioLink| destroy(l),
                    ));
                }
                while i < self.links.len()
                    invariant
                        i <= self.links@.len(),
                        pred == links_between(s.id, d.id),
                        out@ == self.links@.take(i as int).filter(pred).map_values(
                            |l: AudioLink| destroy(l),
                        ),
                    decreases self.links@.len() - i,
                {
                    let l = self.links[i];
                    proof {
                        assert(self.links@.take(i + 1) =~= self.links@.take(i as int).push(l));
                        self.links@.take(i as int).lemma_filter_push(l, pred);
                    }
                    if l.output_node_id == s.id && l.input_node_id == d.id {
                        out.push(PwCommand::DestroyLink { link_id: l.id });
                        assert(self.links@.take(i as int).filter(pred).push(l).map_values(
                            |l: AudioLink| destroy(l),
                        ) =~= self.links@.take(i as int).filter(pred).map_values(
                            |l: AudioLink| destroy(l),
                        ).push(destroy(l)));
                    }
                    i += 1;
                }
                assert(self.links@.take(self.links@.len() as int) =~= self.links@);
                out
            },
            _ => Vec::new(),
        }
    }
}


/// The `pw-link` arguments that carry out a link command: output and input
/// port ids to link them, `-d` and the link id to destroy one; nothing for
/// `Quit`.
pub open spec fn pw_link_args_of(cmd: PwCommand) -> Option<Seq<Seq<char>>> {
    match cmd {
        PwCommand::CreateLink { output_port_id, input_port_id } => Some(
            seq![dec(output_port_id as nat), dec(input_port_id as nat)],
        ),
        PwCommand::DestroyLink { link_id } => Some(seq!["-d"@, dec(link_id as nat)]),
        PwCommand::Quit => None,
    }
}

/// The `pw-link` arguments of a link command (see [`pw_link_args_of`]).
pub fn pw_link_args(cmd: PwCommand) -> (r: Option<Vec<String>>)
    ensures
        match r {
            Some(v) => pw_link_args_of(cmd) == Some(v@.map_values(|s: String| s@)),
            None => pw_link_args_of(cmd) is None,
        },
{
    match cmd {
        PwCommand::CreateLink { output_port_id, input_port_id } => {
            let mut v: Vec<String> = Vec::new();
            v.push(dec_u32(output_port_id));
            v.push(dec_u32(input_port_id));
            assert(v@.map_values(|s: String| s@) =~= seq![
                dec(output_port_id as nat),
                dec(input_port_id as nat),
            ]);
            Some(v)
        },
        PwCommand::DestroyLink { link_id } => {
            let mut v: Vec<String> = Vec::new();
            v.push(text_copy("-d"));
            v.push(dec_u32(link_id));
            assert(v@.map_values(|s: String| s@) =~= seq!["-d"@, dec(link_id as nat)]);
            Some(v)
        },
        PwCommand::Quit => None,
    }
}


/// Looking a node up right after storing it gives that node; every other id
/// gives what it gave before.
pub proof fn lemma_add_node_lookup(nodes: Seq<AudioNode>, n: AudioNode, k: u32)
    requires
        keys_unique(nodes, node_key()),
    ensures
        find_key(upsert(nodes, node_key(), n), node_key(), n.id) == Some(n),
        k != n.id ==> find_key(upsert(nodes, node_key(), n), node_key(), k) == find_key(
            nodes,
            node_key(),
            k,
        ),
{
    lemma_upsert_unique(nodes, node_key(), n);
}

/// Looking a port up right after storing it gives that port; every other id
/// gives what it gave before.
pub proof fn lemma_add_port_lookup(ports: Seq<AudioPort>, p: AudioPort, k: u32)
    requires
        keys_unique(ports, port_key()),
    ensures
        find_key(upsert(ports, port_key(), p), port_key(), p.id) == Some(p),
        k != p.id ==> find_key(upsert(ports, port_key(), p), port_key(), k) == find_key(
            ports,
            port_key(),
            k,
        ),
{
    lemma_upsert_unique(ports, port_key(), p);
}

} // verus!

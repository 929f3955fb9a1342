//! Saved port-level connections of the routing matrix, by node names.
use vstd::prelude::*;

use crate::seqs::{lemma_filter_twice, retain_where};
use crate::text::{join_path, path_join, same_text, text_copy};

verus! {

broadcast use vstd::seq_lib::group_seq_properties;

/// A link between two ports, by port names.
#[derive(Debug)]
pub struct PortLink {
    pub src: String,
    pub dst: String,
}

impl Clone for PortLink {
    fn clone(&self) -> (r: Self)
        ensures
            r == *self,
    {
        PortLink { src: self.src.clone(), dst: self.dst.clone() }
    }
}

/// The saved links from node `src_node` to node `dst_node`.
#[derive(Debug)]
pub struct MatrixNodeConn {
    pub src_node: String,
    pub dst_node: String,
    pub links: Vec<PortLink>,
}

pub struct MatrixNodeConnView {
    pub src_node: Seq<char>,
    pub dst_node: Seq<char>,
    pub links: Seq<PortLink>,
}

impl View for MatrixNodeConn {
    type V = MatrixNodeConnView;

    open spec fn view(&self) -> MatrixNodeConnView {
        MatrixNodeConnView { src_node: self.src_node@, dst_node: self.dst_node@, links: self.links@ }
    }
}

#[derive(Debug)]
pub struct MatrixConfig {
    pub connections: Vec<MatrixNodeConn>,
}

pub open spec fn conns_view(v: Seq<MatrixNodeConn>) -> Seq<MatrixNodeConnView> {
    v.map_values(|c: MatrixNodeConn| c@)
}

impl View for MatrixConfig {
    type V = Seq<MatrixNodeConnView>;

    open spec fn view(&self) -> Seq<MatrixNodeConnView> {
        conns_view(self.connections@)
    }
}

/// Connection `c` goes from node `src` to node `dst`.
pub open spec fn joins(c: MatrixNodeConnView, src: Seq<char>, dst: Seq<char>) -> bool {
    c.src_node == src && c.dst_node == dst
}

/// Connection `c` starts or ends at node `name`.
pub open spec fn involves(c: MatrixNodeConnView, name: Seq<char>) -> bool {
    c.src_node == name || c.dst_node == name
}

/// The connections after saving `links` for the pair `src` → `dst`: the
/// pair's old entries go, and a new entry is appended unless `links` is empty.
pub open spec fn pair_set(
    conns: Seq<MatrixNodeConnView>,
    src: Seq<char>,
    dst: Seq<char>,
    links: Seq<PortLink>,
) -> Seq<MatrixNodeConnView> {
    let kept = conns.filter(|c: MatrixNodeConnView| !joins(c, src, dst));
    if links.len() == 0 {
        kept
    } else {
        kept.push(MatrixNodeConnView { src_node: src, dst_node: dst, links })
    }
}

impl Default for MatrixConfig {
    fn default() -> (r: Self)
        ensures
            r@ == Seq::<MatrixNodeConnView>::empty(),
    {
        let r = MatrixConfig { connections: Vec::new() };
        assert(r@ =~= Seq::<MatrixNodeConnView>::empty());
        r
    }
}

impl MatrixConfig {
    /// Where the matrix connections are kept, under the home directory
    /// `home`.
    pub fn config_path(home: &str) -> (r: String)
        ensures
            r@ == join_path(home@, ".config/audibian/matrix.toml"@),
    {
        path_join(home, ".config/audibian/matrix.toml")
    }

    /// Replaces the saved links of the pair `src_node` → `dst_node` by
    /// `links`; an empty list removes the pair.
    pub fn set_node_pair(&mut self, src_node: &str, dst_node: &str, links: Vec<PortLink>)
        ensures
            final(self)@ == pair_set(old(self)@, src_node@, dst_node@, links@),
    {
        let ghost pred = |c: MatrixNodeConn| !(c.src_node@ == src_node@ && c.dst_node@ == dst_node@);
        let keep = |c: &MatrixNodeConn| -> (r: bool)
            ensures
                r == !(c.src_node@ == src_node@ && c.dst_node@ == dst_node@),
            { !(same_text(c.src_node.as_str(), src_node) && same_text(c.dst_node.as_str(), dst_node)) };
        let ghost before = self.connections@;
        retain_where(&mut self.connections, keep, Ghost(pred));
        let ghost q = |c: MatrixNodeConnView| !joins(c, src_node@, dst_node@);
        proof {
            lemma_conns_view_filter(before, pred, q);
            assert(self@ == conns_view(before).filter(q));
        }
        if links.len() > 0 {
            self.connections.push(
                MatrixNodeConn {
                    src_node: text_copy(src_node),
                    dst_node: text_copy(dst_node),
                    links,
                },
            );
            assert(self@ =~= pair_set(old(self)@, src_node@, dst_node@, links@));
        } else {
            assert(self@ == pair_set(old(self)@, src_node@, dst_node@, links@));
        }
    }

    /// The saved connections that start or end at node `node_name`, in order.
    pub fn connections_involving(&self, node_name: &str) -> (r: Vec<&MatrixNodeConn>)
        ensures
            conns_view(r@.map_values(|c: &MatrixNodeConn| *c)) == self@.filter(
                |c: MatrixNodeConnView| involves(c, node_name@),
            ),
    {
        let ghost pred = |c: MatrixNodeConnView| involves(c, node_name@);
        let mut out: Vec<&MatrixNodeConn> = Vec::new();
        let mut i: usize = 0;
        proof {
            reveal(Seq::filter);
            assert(self@.take(0) =~= Seq::<MatrixNodeConnView>::empty());
            assert(conns_view(out@.map_values(|c: &MatrixNodeConn| *c)) =~= Seq::<
                MatrixNodeConnView,
            >::empty());
        }
        while i < self.connections.len()
            invariant
                i <= self.connections@.len(),
                pred == (|c: MatrixNodeConnView| involves(c, node_name@)),
                conns_view(out@.map_values(|c: &MatrixNodeConn| *c)) == self@.take(i as int).filter(
                    pred,
                ),
            decreases self.connections@.len() - i,
        {
            let c = &self.connections[i];
            proof {
                assert(self@[i as int] == c@);
                assert(self@.take(i + 1) =~= self@.take(i as int).push(c@));
                self@.take(i as int).lemma_filter_push(c@, pred);
            }
            if same_text(c.src_node.as_str(), node_name) || same_text(c.dst_node.as_str(), node_name) {
                let ghost prev = out@;
                out.push(c);
                assert(conns_view(out@.map_values(|c: &MatrixNodeConn| *c)) =~= conns_view(
                    prev.map_values(|c: &MatrixNodeConn| *c),
                ).push(c@));
            }
            i += 1;
        }
        assert(self@.take(self@.len() as int) =~= self@);
        out
    }
}

proof fn lemma_conns_view_filter(
    s: Seq<MatrixNodeConn>,
    p: spec_fn(MatrixNodeConn) -> bool,
    q: spec_fn(MatrixNodeConnView) -> bool,
)
    requires
        forall|c: MatrixNodeConn| #[trigger] p(c) == q(c@),
    ensures
        conns_view(s.filter(p)) == conns_view(s).filter(q),
    decreases s.len(),
{
    reveal(Seq::filter);
    if s.len() > 0 {
        lemma_conns_view_filter(s.drop_last(), p, q);
        assert(conns_view(s).drop_last() =~= conns_view(s.drop_last()));
        let f = s.drop_last().filter(p);
        assert(conns_view(f.push(s.last())) =~= conns_view(f).push(s.last()@));
        assert(conns_view(s).last() == s.last()@);
    }
}

/// After saving a non-empty list of links for a pair, exactly one saved
/// connection joins that pair, and it holds those links; connections of
/// other pairs are kept in order.
pub proof fn lemma_set_node_pair_single(
    conns: Seq<MatrixNodeConnView>,
    src: Seq<char>,
    dst: Seq<char>,
    links: Seq<PortLink>,
)
    requires
        links.len() > 0,
    ensures
        ({
            let r = pair_set(conns, src, dst, links);
            &&& joins(r.last(), src, dst) && r.last().links == links
            &&& forall|i: int| 0 <= i < r.len() - 1 ==> !joins(#[trigger] r[i], src, dst)
            &&& r.drop_last() == conns.filter(|c: MatrixNodeConnView| !joins(c, src, dst))
        }),
{
    let kept = conns.filter(|c: MatrixNodeConnView| !joins(c, src, dst));
    let r = pair_set(conns, src, dst, links);
    assert(r.drop_last() =~= kept);
    assert forall|i: int| 0 <= i < r.len() - 1 implies !joins(#[trigger] r[i], src, dst) by {
        assert(r[i] == kept[i]);
        conns.lemma_filter_pred(|c: MatrixNodeConnView| !joins(c, src, dst), i);
    }
}

/// Saving the same links for a pair twice leaves what saving them once
/// leaves.
pub proof fn lemma_set_node_pair_idempotent(
    conns: Seq<MatrixNodeConnView>,
    src: Seq<char>,
    dst: Seq<char>,
    links: Seq<PortLink>,
)
    ensures
        pair_set(pair_set(conns, src, dst, links), src, dst, links) == pair_set(conns, src, dst, links),
{
    let p = |c: MatrixNodeConnView| !joins(c, src, dst);
    let kept = conns.filter(p);
    lemma_filter_twice(conns, p);
    if links.len() > 0 {
        let x = MatrixNodeConnView { src_node: src, dst_node: dst, links };
        kept.lemma_filter_push(x, p);
        assert(!p(x));
    }
}

/// Saving an empty list of links for a pair, after saving any list for it,
/// leaves no connection for that pair and the other connections as they
/// were, in order.
pub proof fn lemma_set_node_pair_cleared(
    conns: Seq<MatrixNodeConnView>,
    src: Seq<char>,
    dst: Seq<char>,
    links: Seq<PortLink>,
)
    ensures
        pair_set(pair_set(conns, src, dst, links), src, dst, Seq::empty()) == conns.filter(
            |c: MatrixNodeConnView| !joins(c, src, dst),
        ),
        forall|i: int|
            0 <= i < pair_set(pair_set(conns, src, dst, links), src, dst, Seq::empty()).len() ==> !joins(
                #[trigger] pair_set(pair_set(conns, src, dst, links), src, dst, Seq::empty())[i],
                src,
                dst,
            ),
{
    let p = |c: MatrixNodeConnView| !joins(c, src, dst);
    let kept = conns.filter(p);
    lemma_filter_twice(conns, p);
    if links.len() > 0 {
        let x = MatrixNodeConnView { src_node: src, dst_node: dst, links };
        kept.lemma_filter_push(x, p);
        assert(!p(x));
    }
    assert forall|i: int| 0 <= i < kept.len() implies !joins(#[trigger] kept[i], src, dst) by {
        conns.lemma_filter_pred(p, i);
    }
}

} // verus!

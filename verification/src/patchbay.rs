//! What the patchbay matrix shows and does: which nodes send and receive,
//! how receivers are labelled, which sends are on, and the links a send
//! button makes or removes.
use vstd::prelude::*;

use crate::audio::graph::{
    create, destroy, link_plan, links_between, plan_links, sorted_ports, AudioGraph, AudioLink,
    AudioNode, AudioPort, Direction, PwCommand,
};
use crate::text::{dec, has_prefix, has_sub, join2, occurs_at, contains, starts_with, text_copy, chars_of, string_from_chars, dec_u64};

verus! {

/// Node `id` has ports pointing in direction `d`.
pub open spec fn has_ports(g: AudioGraph, id: u32, d: Direction) -> bool {
    sorted_ports(g, id, Some(d)).len() > 0
}

/// The ids of the nodes of `s` that have ports pointing in direction `d`,
/// in order.
pub open spec fn ids_with_ports(g: AudioGraph, s: Seq<AudioNode>, d: Direction) -> Seq<u32>
    decreases s.len(),
{
    if s.len() == 0 {
        Seq::empty()
    } else {
        let rest = ids_with_ports(g, s.drop_last(), d);
        if has_ports(g, s.last().id, d) {
            rest.push(s.last().id)
        } else {
            rest
        }
    }
}

/// The columns of the matrix: nodes that send (have output ports) and nodes
/// that receive (have input ports), by node id, each in list order.
#[derive(Debug)]
pub struct MatrixLayout {
    pub senders: Vec<u32>,
    pub receivers: Vec<u32>,
}

/// The senders and receivers among the audio nodes `nodes`, which the
/// caller lists in list order.
pub fn matrix_layout(graph: &AudioGraph, nodes: &Vec<&AudioNode>) -> (r: MatrixLayout)
    ensures
        r.senders@ == ids_with_ports(*graph, nodes@.map_values(|n: &AudioNode| *n), Direction::Output),
        r.receivers@ == ids_with_ports(*graph, nodes@.map_values(|n: &AudioNode| *n), Direction::Input),
{
    let ghost s = nodes@.map_values(|n: &AudioNode| *n);
    let mut senders: Vec<u32> = Vec::new();
    let mut receivers: Vec<u32> = Vec::new();
    let mut i: usize = 0;
    assert(s.take(0) =~= Seq::<AudioNode>::empty());
    while i < nodes.len()
        invariant
            i <= nodes@.len(),
            s == nodes@.map_values(|n: &AudioNode| *n),
            senders@ == ids_with_ports(*graph, s.take(i as int), Direction::Output),
            receivers@ == ids_with_ports(*graph, s.take(i as int), Direction::Input),
        decreases nodes@.len() - i,
    {
        let n = nodes[i];
        assert(s.take(i + 1).drop_last() =~= s.take(i as int));
        assert(s.take(i + 1).last() == *n);
        let ins = graph.input_ports_for_node(n.id);
        let outs = graph.output_ports_for_node(n.id);
        assert(ins@.map_values(|p: &AudioPort| *p).len() == ins@.len());
        assert(outs@.map_values(|p: &AudioPort| *p).len() == outs@.len());
        if ins.len() > 0 {
            receivers.push(n.id);
        }
        if outs.len() > 0 {
            senders.push(n.id);
        }
        i += 1;
    }
    assert(s.take(s.len() as int) =~= s);
    MatrixLayout { senders, receivers }
}

/// The label of the `i`-th receiver: `A` to `Z`, then `R<i>`.
pub open spec fn receiver_label_of(i: nat) -> Seq<char> {
    if i < 26 {
        seq![(65 + i) as char]
    } else {
        "R"@ + dec(i)
    }
}

/// The label of the `i`-th receiver (see [`receiver_label_of`]).
pub fn receiver_label(i: usize) -> (r: String)
    ensures
        r@ == receiver_label_of(i as nat),
{
    if i < 26 {
        let c = ((65 + i) as u8) as char;
        let v: Vec<char> = vec![c];
        assert(v@ =~= seq![(65 + i) as char]);
        string_from_chars(v.as_slice())
    } else {
        let digits = dec_u64(i as u64);
        join2("R", digits.as_str())
    }
}

/// The send rows of sender `sender`: every receiver but itself, with its
/// label (by its position among all receivers).
pub open spec fn send_rows_of(receivers: Seq<u32>, sender: u32) -> Seq<(u32, Seq<char>)>
    decreases receivers.len(),
{
    if receivers.len() == 0 {
        Seq::empty()
    } else {
        let rest = send_rows_of(receivers.drop_last(), sender);
        let k = receivers.len() - 1;
        if receivers.last() == sender {
            rest
        } else {
            rest.push((receivers.last(), receiver_label_of(k as nat)))
        }
    }
}

/// The send rows of sender `sender` (see [`send_rows_of`]).
pub fn send_rows(receivers: &[u32], sender: u32) -> (r: Vec<(u32, String)>)
    ensures
        r@.map_values(|p: (u32, String)| (p.0, p.1@)) == send_rows_of(receivers@, sender),
{
    let mut out: Vec<(u32, String)> = Vec::new();
    let mut i: usize = 0;
    assert(receivers@.take(0) =~= Seq::<u32>::empty());
    assert(out@.map_values(|p: (u32, String)| (p.0, p.1@)) =~= Seq::<(u32, Seq<char>)>::empty());
    while i < receivers.len()
        invariant
            i <= receivers@.len(),
            out@.map_values(|p: (u32, String)| (p.0, p.1@)) == send_rows_of(receivers@.take(i as int), sender),
        decreases receivers@.len() - i,
    {
        assert(receivers@.take(i + 1).drop_last() =~= receivers@.take(i as int));
        assert(receivers@.take(i + 1).last() == receivers@[i as int]);
        if receivers[i] != sender {
            let ghost before = out@;
            let label = receiver_label(i);
            out.push((receivers[i], label));
            assert(out@.map_values(|p: (u32, String)| (p.0, p.1@)) =~= before.map_values(
                |p: (u32, String)| (p.0, p.1@),
            ).push((receivers@[i as int], receiver_label_of(i as nat))));
        }
        i += 1;
    }
    assert(receivers@.take(receivers@.len() as int) =~= receivers@);
    out
}

/// The links of `links` from node `sender` to node `receiver`, as commands
/// that destroy them, in link order.
pub open spec fn unlink_commands(links: Seq<AudioLink>, sender: u32, receiver: u32) -> Seq<PwCommand>
    decreases links.len(),
{
    if links.len() == 0 {
        Seq::empty()
    } else {
        let rest = unlink_commands(links.drop_last(), sender, receiver);
        if links_between(sender, receiver)(links.last()) {
            rest.push(destroy(links.last()))
        } else {
            rest
        }
    }
}

/// The commands that turn the send from `sender` to `receiver` off: one
/// per existing link between them. The send shows as on when there are any.
pub fn send_unlink_commands(graph: &AudioGraph, sender: u32, receiver: u32) -> (r: Vec<PwCommand>)
    ensures
        r@ == unlink_commands(graph.link_seq(), sender, receiver),
{
    let links = graph.links();
    let mut out: Vec<PwCommand> = Vec::new();
    let mut i: usize = 0;
    assert(links@.take(0) =~= Seq::<AudioLink>::empty());
    while i < links.len()
        invariant
            i <= links@.len(),
            links@ == graph.link_seq(),
            out@ == unlink_commands(links@.take(i as int), sender, receiver),
        decreases links@.len() - i,
    {
        let l = links[i];
        assert(links@.take(i + 1).drop_last() =~= links@.take(i as int));
        assert(links@.take(i + 1).last() == l);
        if l.output_node_id == sender && l.input_node_id == receiver {
            out.push(PwCommand::DestroyLink { link_id: l.id });
        }
        i += 1;
    }
    assert(links@.take(links@.len() as int) =~= links@);
    out
}

/// The links a send button makes from `sender` to `receiver` in send mode
/// `mode`: mode 0 mixes, output `k` into input `k` (or the first input);
/// mode `n` (1 up to the number of outputs) sends output `n - 1` alone into
/// every input; other modes make none.
pub open spec fn send_link_plan(g: AudioGraph, sender: u32, receiver: u32, mode: nat) -> Seq<PwCommand> {
    let outs = sorted_ports(g, sender, Some(Direction::Output));
    let ins = sorted_ports(g, receiver, Some(Direction::Input));
    if mode == 0 {
        link_plan(outs, ins, false)
    } else if mode <= outs.len() {
        link_plan(seq![outs[mode - 1]], ins, true)
    } else {
        Seq::empty()
    }
}

/// The links a send button makes (see [`send_link_plan`]).
pub fn send_link_commands(graph: &AudioGraph, sender: u32, receiver: u32, mode: usize) -> (r: Vec<PwCommand>)
    ensures
        r@ == send_link_plan(*graph, sender, receiver, mode as nat),
{
    let outs = graph.output_ports_for_node(sender);
    let ins = graph.input_ports_for_node(receiver);
    let ghost ov = outs@.map_values(|p: &AudioPort| *p);
    assert(ov.len() == outs@.len());
    if mode == 0 {
        plan_links(&outs, &ins, false)
    } else if mode <= outs.len() {
        let one: Vec<&AudioPort> = vec![outs[mode - 1]];
        assert(one@.map_values(|p: &AudioPort| *p) =~= seq![ov[mode - 1]]);
        plan_links(&one, &ins, true)
    } else {
        Vec::new()
    }
}

/// The send modes offered for a sender with output ports `outs`: the
/// stereo mix, then each output port alone.
pub open spec fn send_mode_labels_of(outs: Seq<AudioPort>) -> Seq<Seq<char>> {
    seq!["Mezcla (Estéreo sumado L+R)"@] + outs.map_values(
        |p: AudioPort| "Mono individual: "@ + p.name@,
    )
}

/// The send modes offered for sender `sender` (see [`send_mode_labels_of`]).
pub fn send_mode_labels(graph: &AudioGraph, sender: u32) -> (r: Vec<String>)
    ensures
        r@.map_values(|s: String| s@) == send_mode_labels_of(sorted_ports(*graph, sender, Some(Direction::Output))),
{
    let outs = graph.output_ports_for_node(sender);
    let ghost ov = outs@.map_values(|p: &AudioPort| *p);
    let ghost want = send_mode_labels_of(ov);
    let mut out: Vec<String> = Vec::new();
    out.push(text_copy("Mezcla (Estéreo sumado L+R)"));
    let mut i: usize = 0;
    while i < outs.len()
        invariant
            i <= outs@.len(),
            ov == outs@.map_values(|p: &AudioPort| *p),
            want == send_mode_labels_of(ov),
            out@.map_values(|s: String| s@) == want.take(i + 1),
        decreases outs@.len() - i,
    {
        let ghost before = out@;
        out.push(join2("Mono individual: ", outs[i].name.as_str()));
        assert(out@.map_values(|s: String| s@) =~= before.map_values(|s: String| s@).push(
            "Mono individual: "@ + ov[i as int].name@,
        ));
        assert(want.take(i + 2) =~= want.take(i + 1).push(want[i + 1]));
        i += 1;
    }
    assert(want.take(ov.len() as int + 1) =~= want);
    out
}

/// The first position where `needle` occurs in `hay` at or after `i`.
pub open spec fn first_occurrence_from(hay: Seq<char>, needle: Seq<char>, i: int) -> Option<int>
    decreases hay.len() + 1 - i,
{
    if i < 0 || i + needle.len() > hay.len() {
        None
    } else if occurs_at(hay, needle, i) {
        Some(i)
    } else {
        first_occurrence_from(hay, needle, i + 1)
    }
}

/// The alias typed into a receiver's title, which reads `[<label>] <alias>`:
/// what follows the first `] `, or the whole text when there is none.
pub open spec fn alias_of(title: Seq<char>) -> Seq<char> {
    match first_occurrence_from(title, "] "@, 0) {
        Some(k) => title.skip(k + 2),
        None => title,
    }
}

/// The alias in a receiver's title (see [`alias_of`]).
pub fn alias_from_title(title: &str) -> (r: String)
    ensures
        r@ == alias_of(title@),
{
    proof {
        reveal_strlit("] ");
    }
    let t = chars_of(title);
    let mut i: usize = 0;
    while i < t.len() && i + 1 < t.len()
        invariant
            i <= t@.len(),
            t@ == title@,
            "] "@ == seq![']', ' '],
            first_occurrence_from(t@, "] "@, 0) == first_occurrence_from(t@, "] "@, i as int),
        decreases t@.len() - i,
    {
        if t[i] == ']' && t[i + 1] == ' ' {
            assert(t@.subrange(i as int, i + 2) =~= "] "@);
            let mut out: Vec<char> = Vec::new();
            let mut k: usize = i + 2;
            while k < t.len()
                invariant
                    i + 2 <= k <= t@.len(),
                    out@ == t@.subrange(i + 2, k as int),
                decreases t@.len() - k,
            {
                out.push(t[k]);
                assert(t@.subrange(i + 2, k + 1) =~= t@.subrange(i + 2, k as int).push(t@[k as int]));
                k += 1;
            }
            assert(t@.subrange(i + 2, t@.len() as int) =~= t@.skip(i + 2));
            return string_from_chars(out.as_slice());
        }
        assert(!occurs_at(t@, "] "@, i as int)) by {
            if occurs_at(t@, "] "@, i as int) {
                assert(t@.subrange(i as int, i + 2)[0] == t@[i as int]);
                assert(t@.subrange(i as int, i + 2)[1] == t@[i + 1]);
            }
        }
        i += 1;
    }
    assert(first_occurrence_from(t@, "] "@, i as int) is None);
    text_copy(title)
}

/// The position of the last `/` in `s`.
pub open spec fn last_slash(s: Seq<char>) -> Option<int>
    decreases s.len(),
{
    if s.len() == 0 {
        None
    } else if s.last() == '/' {
        Some(s.len() - 1)
    } else {
        last_slash(s.drop_last())
    }
}

/// The short form of a media class shown on a mixer strip.
pub open spec fn short_class_of(class: Seq<char>) -> Seq<char> {
    if has_sub(class, "Sink"@) {
        "Sink"@
    } else if has_sub(class, "Source"@) {
        "Source"@
    } else if has_prefix(class, "Stream/Input"@) {
        "App→Sink"@
    } else if has_prefix(class, "Stream/Output"@) {
        "Src→App"@
    } else {
        match last_slash(class) {
            Some(k) => class.skip(k + 1),
            None => class,
        }
    }
}

/// The short form of a media class (see [`short_class_of`]).
pub fn short_class(class: &str) -> (r: String)
    ensures
        r@ == short_class_of(class@),
{
    if contains(class, "Sink") {
        return text_copy("Sink");
    }
    if contains(class, "Source") {
        return text_copy("Source");
    }
    if starts_with(class, "Stream/Input") {
        return text_copy("App→Sink");
    }
    if starts_with(class, "Stream/Output") {
        return text_copy("Src→App");
    }
    let t = chars_of(class);
    let mut j: usize = t.len();
    assert(t@.take(j as int) =~= t@);
    while j > 0 && t[j - 1] != '/'
        invariant
            j <= t@.len(),
            t@ == class@,
            last_slash(t@) == last_slash(t@.take(j as int)),
        decreases j,
    {
        assert(t@.take(j as int).drop_last() =~= t@.take(j - 1));
        j -= 1;
    }
    if j == 0 {
        assert(t@.take(0) =~= Seq::<char>::empty());
        return text_copy(class);
    }
    assert(t@.take(j as int).last() == '/');
    let mut out: Vec<char> = Vec::new();
    let mut k: usize = j;
    while k < t.len()
        invariant
            j <= k <= t@.len(),
            out@ == t@.subrange(j as int, k as int),
        decreases t@.len() - k,
    {
        out.push(t[k]);
        assert(t@.subrange(j as int, k + 1) =~= t@.subrange(j as int, k as int).push(t@[k as int]));
        k += 1;
    }
    assert(t@.subrange(j as int, t@.len() as int) =~= t@.skip(j as int));
    string_from_chars(out.as_slice())
}

/// The band type shown for EQ band `idx`.
pub open spec fn filter_type_name_of(idx: nat) -> Seq<char> {
    if idx == 0 {
        "Low Shelf"@
    } else if idx == 4 {
        "High Shelf"@
    } else {
        "Peak"@
    }
}

/// The band type shown for EQ band `idx`.
pub fn filter_type_name(idx: usize) -> (r: &'static str)
    ensures
        r@ == filter_type_name_of(idx as nat),
{
    match idx {
        0 => "Low Shelf",
        4 => "High Shelf",
        _ => "Peak",
    }
}

} // verus!

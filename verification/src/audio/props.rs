//! Turning the properties of a sound-server object into a graph event.
use vstd::prelude::*;

use crate::audio::graph::{
    node_type_from_media_class, node_type_of_class, AudioLink, AudioNode, AudioPort, Direction,
    MediaType, NodeType, PwEvent,
};
use crate::mixer::config::{opt_view, UNITY};
use crate::text::{
    chars_of, contains, dec, dec_u32, has_prefix, has_sub, join2, parse_u32, parse_u32_spec,
    same_text, starts_with, text_copy,
};

verus! {

/// The value of property `key`: that of its first entry.
pub open spec fn prop(props: Seq<(Seq<char>, Seq<char>)>, key: Seq<char>) -> Option<Seq<char>>
    decreases props.len(),
{
    if props.len() == 0 {
        None
    } else if props[0].0 == key {
        Some(props[0].1)
    } else {
        prop(props.drop_first(), key)
    }
}

pub open spec fn props_view(v: Seq<(String, String)>) -> Seq<(Seq<char>, Seq<char>)> {
    v.map_values(|p: (String, String)| (p.0@, p.1@))
}

/// The value of property `key`, if set.
pub fn get_prop(props: &[(String, String)], key: &str) -> (r: Option<String>)
    ensures
        opt_view(r) == prop(props_view(props@), key@),
{
    let ghost pv = props_view(props@);
    let mut i: usize = 0;
    assert(pv.skip(0) =~= pv);
    while i < props.len()
        invariant
            i <= props@.len(),
            pv == props_view(props@),
            prop(pv, key@) == prop(pv.skip(i as int), key@),
        decreases props@.len() - i,
    {
        assert(pv.skip(i as int)[0] == pv[i as int]);
        assert(pv.skip(i as int).drop_first() =~= pv.skip(i + 1));
        if same_text(props[i].0.as_str(), key) {
            return Some(text_copy(props[i].1.as_str()));
        }
        i += 1;
    }
    None
}

/// The kinds of registry objects the graph follows.
#[derive(Debug)]
pub enum ObjectKind {
    Node,
    Port,
    Link,
    Other,
}

/// Nodes whose media class is set but is neither audio nor a stream are
/// not followed.
pub open spec fn node_followed(class: Seq<char>) -> bool {
    class.len() == 0 || has_sub(class, "Audio"@) || has_prefix(class, "Stream"@)
}

/// `o` or, when it is none, `d`.
pub open spec fn or_text(o: Option<Seq<char>>, d: Seq<char>) -> Seq<char> {
    match o {
        Some(s) => s,
        None => d,
    }
}

/// The node a registry node `id` with properties `props` is, if followed:
/// named by `node.name` (else `node-<id>`), typed by its media class, at
/// unity volume and not muted.
pub open spec fn node_of(id: u32, props: Seq<(Seq<char>, Seq<char>)>, n: AudioNode) -> bool {
    let class = or_text(prop(props, "media.class"@), Seq::empty());
    &&& n.id == id
    &&& n.name@ == or_text(prop(props, "node.name"@), "node-"@ + dec(id as nat))
    &&& opt_view(n.nick) == prop(props, "node.nick"@)
    &&& opt_view(n.description) == prop(props, "node.description"@)
    &&& opt_view(n.app_name) == prop(props, "application.name"@)
    &&& n.node_type == (if class.len() == 0 {
        NodeType::Unknown
    } else {
        node_type_of_class(class)
    })
    &&& opt_view(n.media_class) == (if class.len() == 0 {
        None
    } else {
        Some(class)
    })
    &&& n.volume == UNITY
    &&& !n.muted
}

/// The node a registry node is (see [`node_of`]); none when it is not
/// followed.
pub fn node_from_props(id: u32, props: &[(String, String)]) -> (r: Option<AudioNode>)
    ensures
        r is Some == node_followed(or_text(prop(props_view(props@), "media.class"@), Seq::empty())),
        r matches Some(n) ==> node_of(id, props_view(props@), n),
{
    proof {
        reveal_strlit("");
    }
    let class = match get_prop(props, "media.class") {
        Some(c) => c,
        None => text_copy(""),
    };
    let empty = class.as_str().is_empty();
    if !empty && !contains(class.as_str(), "Audio") && !starts_with(class.as_str(), "Stream") {
        return None;
    }
    let node_type = if empty {
        NodeType::Unknown
    } else {
        node_type_from_media_class(class.as_str())
    };
    let name = match get_prop(props, "node.name") {
        Some(n) => n,
        None => {
            let digits = dec_u32(id);
            join2("node-", digits.as_str())
        },
    };
    Some(
        AudioNode {
            id,
            name,
            nick: get_prop(props, "node.nick"),
            description: get_prop(props, "node.description"),
            app_name: get_prop(props, "application.name"),
            node_type,
            media_class: if empty {
                None
            } else {
                Some(class)
            },
            volume: UNITY,
            muted: false,
        },
    )
}

/// A property read as a `u32` the way `str::parse` does.
pub open spec fn prop_u32(props: Seq<(Seq<char>, Seq<char>)>, key: Seq<char>) -> Option<u32> {
    match prop(props, key) {
        Some(s) => parse_u32_spec(s),
        None => None,
    }
}

fn get_prop_u32(props: &[(String, String)], key: &str) -> (r: Option<u32>)
    ensures
        r == prop_u32(props_view(props@), key@),
{
    match get_prop(props, key) {
        Some(s) => {
            let cs = chars_of(s.as_str());
            parse_u32(cs.as_slice())
        },
        None => None,
    }
}

/// The direction a `port.direction` property names.
pub open spec fn direction_of(d: Option<Seq<char>>) -> Option<Direction> {
    match d {
        Some(s) => if s == "out"@ {
            Some(Direction::Output)
        } else if s == "in"@ {
            Some(Direction::Input)
        } else {
            None
        },
        None => None,
    }
}

/// The port a registry port `id` with properties `props` is: it needs a
/// numeric `node.id` and a `port.direction` of `out` or `in`; its number
/// is `port.id` (0 when missing or not a number), its name `port.name`
/// (else `port-<id>`).
pub open spec fn port_of(id: u32, props: Seq<(Seq<char>, Seq<char>)>, p: AudioPort) -> bool {
    &&& p.id == id
    &&& Some(p.node_id) == prop_u32(props, "node.id"@)
    &&& Some(p.direction) == direction_of(prop(props, "port.direction"@))
    &&& p.port_index == (match prop_u32(props, "port.id"@) {
        Some(k) => k,
        None => 0,
    })
    &&& p.name@ == or_text(prop(props, "port.name"@), "port-"@ + dec(id as nat))
    &&& p.media_type == MediaType::Audio
}

/// The port a registry port is (see [`port_of`]).
pub fn port_from_props(id: u32, props: &[(String, String)]) -> (r: Option<AudioPort>)
    ensures
        r is Some == (prop_u32(props_view(props@), "node.id"@) is Some && direction_of(
            prop(props_view(props@), "port.direction"@),
        ) is Some),
        r matches Some(p) ==> port_of(id, props_view(props@), p),
{
    let node_id = match get_prop_u32(props, "node.id") {
        Some(n) => n,
        None => return None,
    };
    let direction = match get_prop(props, "port.direction") {
        Some(d) => if same_text(d.as_str(), "out") {
            Direction::Output
        } else if same_text(d.as_str(), "in") {
            Direction::Input
        } else {
            return None;
        },
        None => return None,
    };
    let port_index = match get_prop_u32(props, "port.id") {
        Some(k) => k,
        None => 0,
    };
    let name = match get_prop(props, "port.name") {
        Some(n) => n,
        None => {
            let digits = dec_u32(id);
            join2("port-", digits.as_str())
        },
    };
    Some(AudioPort { id, node_id, name, direction, media_type: MediaType::Audio, port_index })
}

/// The link a registry link `id` with properties `props` is: it needs all
/// four numeric endpoint properties; it is active.
pub open spec fn link_of(id: u32, props: Seq<(Seq<char>, Seq<char>)>) -> Option<AudioLink> {
    match (
        prop_u32(props, "link.output.node"@),
        prop_u32(props, "link.output.port"@),
        prop_u32(props, "link.input.node"@),
        prop_u32(props, "link.input.port"@),
    ) {
        (Some(on), Some(op), Some(inn), Some(ip)) => Some(
            AudioLink {
                id,
                output_node_id: on,
                output_port_id: op,
                input_node_id: inn,
                input_port_id: ip,
                active: true,
            },
        ),
        _ => None,
    }
}

/// The link a registry link is (see [`link_of`]).
pub fn link_from_props(id: u32, props: &[(String, String)]) -> (r: Option<AudioLink>)
    ensures
        r == link_of(id, props_view(props@)),
{
    let output_node_id = match get_prop_u32(props, "link.output.node") {
        Some(v) => v,
        None => return None,
    };
    let output_port_id = match get_prop_u32(props, "link.output.port") {
        Some(v) => v,
        None => return None,
    };
    let input_node_id = match get_prop_u32(props, "link.input.node") {
        Some(v) => v,
        None => return None,
    };
    let input_port_id = match get_prop_u32(props, "link.input.port") {
        Some(v) => v,
        None => return None,
    };
    Some(AudioLink { id, output_node_id, output_port_id, input_node_id, input_port_id, active: true })
}

/// The graph event a new registry object gives: a node, port or link added,
/// when its properties describe one the graph follows.
pub fn global_event(kind: ObjectKind, id: u32, props: &[(String, String)]) -> (r: Option<PwEvent>)
    ensures
        match kind {
            ObjectKind::Node => match r {
                Some(PwEvent::NodeAdded(n)) => node_of(id, props_view(props@), n),
                None => !node_followed(or_text(prop(props_view(props@), "media.class"@), Seq::empty())),
                _ => false,
            },
            ObjectKind::Port => match r {
                Some(PwEvent::PortAdded(p)) => port_of(id, props_view(props@), p),
                None => !(prop_u32(props_view(props@), "node.id"@) is Some && direction_of(
                    prop(props_view(props@), "port.direction"@),
                ) is Some),
                _ => false,
            },
            ObjectKind::Link => match r {
                Some(PwEvent::LinkAdded(l)) => link_of(id, props_view(props@)) == Some(l),
                None => link_of(id, props_view(props@)) is None,
                _ => false,
            },
            ObjectKind::Other => r is None,
        },
        kind is Node ==> (r is Some <==> node_followed(
            or_text(prop(props_view(props@), "media.class"@), Seq::empty()),
        )),
        kind is Port ==> (r is Some <==> (prop_u32(props_view(props@), "node.id"@) is Some
            && direction_of(prop(props_view(props@), "port.direction"@)) is Some)),
{
    match kind {
        ObjectKind::Node => match node_from_props(id, props) {
            Some(n) => Some(PwEvent::NodeAdded(n)),
            None => None,
        },
        ObjectKind::Port => match port_from_props(id, props) {
            Some(p) => Some(PwEvent::PortAdded(p)),
            None => None,
        },
        ObjectKind::Link => match link_from_props(id, props) {
            Some(l) => Some(PwEvent::LinkAdded(l)),
            None => None,
        },
        ObjectKind::Other => None,
    }
}

} // verus!

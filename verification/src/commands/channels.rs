//! Adding, removing, renaming and re-configuring mixer strips.
use vstd::prelude::*;

use crate::commands::strips::{
    find_input, find_return, input_at, input_id_is, input_of, return_at, return_id_is, return_of,
    with_input, with_return,
};
use crate::commands::strips::{find_module, module_of};
use crate::mixer::config::{
    eq_view, has_send_in, inputs_view, opt_view, returns_view, send_is, texts_view, InputChannel,
    InputChannelView, MixerConfig, MixerConfigView, ReturnChannel, ReturnChannelView, SendRoute,
    StripEq, CENTRE, UNITY,
};
use crate::seqs::{first_where, lemma_first_where_same, retain_viewed};
use crate::seqs::retain_where;
use crate::text::{
    alphanumeric, chars_of, dec, dec_u32, is_alphanumeric, join2, lowercase_of, push_char,
    text_copy, to_lowercase,
};

verus! {

/// `s` with every character that is not alphanumeric replaced by `_`.
pub open spec fn slug_of(s: Seq<char>) -> Seq<char> {
    s.map_values(|c: char| if alphanumeric(c) { c } else { '_' })
}

/// The sink name of a new input strip called `name`.
pub open spec fn input_sink_of(name: Seq<char>) -> Seq<char> {
    "audibian_"@ + slug_of(lowercase_of(name))
}

/// The lower-cased `name` with every character that is not alphanumeric
/// replaced by `_`.
pub fn channel_slug(name: &str) -> (r: String)
    ensures
        r@ == slug_of(lowercase_of(name@)),
{
    let lower = to_lowercase(name);
    slug_text(lower.as_str())
}

/// `text` with every character that is not alphanumeric replaced by `_`
/// (see [`slug_of`]).
pub fn slug_text(text: &str) -> (r: String)
    ensures
        r@ == slug_of(text@),
{
    let cs = chars_of(text);
    let mut out = String::new();
    let mut i: usize = 0;
    while i < cs.len()
        invariant
            i <= cs@.len(),
            cs@ == text@,
            out@ == slug_of(cs@.take(i as int)),
        decreases cs@.len() - i,
    {
        let c = cs[i];
        let k = if is_alphanumeric(c) {
            c
        } else {
            '_'
        };
        push_char(&mut out, k);
        assert(slug_of(cs@.take(i + 1)) =~= slug_of(cs@.take(i as int)).push(k));
        i += 1;
    }
    assert(cs@.take(cs@.len() as int) =~= cs@);
    out
}

/// A new input strip: unity fader, centre pan, playing to the master.
pub open spec fn new_input(id: u32, name: Seq<char>, order: u32) -> InputChannelView {
    InputChannelView {
        id,
        name,
        sink_name: input_sink_of(name),
        order,
        color: None,
        source_name: None,
        mono: false,
        send_to_master: true,
        pan: CENTRE,
        fader: UNITY,
        muted: false,
        app_match_rules: Seq::empty(),
        is_default: false,
        eq: None,
        is_soundboard: false,
    }
}

/// Every strip id is below the next id to hand out.
pub open spec fn ids_below_next(c: MixerConfigView) -> bool {
    &&& forall|i: int| 0 <= i < c.input_channels.len() ==> #[trigger] c.input_channels[i].id < c.next_id
    &&& forall|i: int| 0 <= i < c.return_channels.len() ==> #[trigger] c.return_channels[i].id < c.next_id
}

/// The configuration after adding an input strip called `name`.
pub open spec fn input_added(c: MixerConfigView, name: Seq<char>) -> MixerConfigView {
    MixerConfigView {
        next_id: (c.next_id + 1) as u32,
        input_channels: c.input_channels.push(new_input(c.next_id, name, c.input_channels.len() as u32)),
        ..c
    }
}

/// Adds an input strip called `name`, with the next free id, placed last.
/// Gives the new strip's id and sink name.
pub fn add_input_channel(cfg: &mut MixerConfig, name: String) -> (r: (u32, String))
    requires
        old(cfg).next_id < u32::MAX,
    ensures
        final(cfg)@ == input_added(old(cfg)@, name@),
        r.0 == old(cfg).next_id,
        r.1@ == input_sink_of(name@),
{
    let id = cfg.next_channel_id();
    #[verifier::truncate]
    let order = cfg.input_channels.len() as u32;
    let slug = channel_slug(name.as_str());
    let sink_name = join2("audibian_", slug.as_str());
    let ch = InputChannel {
        id,
        name,
        sink_name: text_copy(sink_name.as_str()),
        order,
        color: None,
        source_name: None,
        mono: false,
        send_to_master: true,
        pan: CENTRE,
        fader: UNITY,
        muted: false,
        app_match_rules: Vec::new(),
        is_default: false,
        eq: None,
        is_soundboard: false,
    };
    let ghost added = ch@;
    assert(ch@.app_match_rules =~= Seq::<Seq<char>>::empty());
    cfg.input_channels.push(ch);
    assert(cfg@.input_channels =~= old(cfg)@.input_channels.push(added));
    (id, sink_name)
}

/// Adding an input strip keeps strip ids distinct and below the next id.
pub proof fn lemma_add_input_keeps_ids(c: MixerConfigView, name: Seq<char>)
    requires
        ids_below_next(c),
        c.next_id < u32::MAX,
        forall|i: int, j: int|
            0 <= i < c.input_channels.len() && 0 <= j < c.input_channels.len() && i != j
                ==> #[trigger] c.input_channels[i].id != #[trigger] c.input_channels[j].id,
        forall|i: int, j: int|
            0 <= i < c.input_channels.len() && 0 <= j < c.return_channels.len()
                ==> #[trigger] c.input_channels[i].id != #[trigger] c.return_channels[j].id,
    ensures
        ids_below_next(input_added(c, name)),
        forall|i: int, j: int|
            0 <= i < input_added(c, name).input_channels.len() && 0 <= j < input_added(
                c,
                name,
            ).input_channels.len() && i != j ==> #[trigger] input_added(c, name).input_channels[i].id
                != #[trigger] input_added(c, name).input_channels[j].id,
        forall|i: int, j: int|
            0 <= i < input_added(c, name).input_channels.len() && 0 <= j < input_added(
                c,
                name,
            ).return_channels.len() ==> #[trigger] input_added(c, name).input_channels[i].id
                != #[trigger] input_added(c, name).return_channels[j].id,
{
    let d = input_added(c, name);
    let n = c.input_channels.len() as int;
    assert forall|i: int| 0 <= i < d.input_channels.len() implies #[trigger] d.input_channels[i].id
        < d.next_id by {
        if i < n {
            assert(d.input_channels[i] == c.input_channels[i]);
        }
    }
    assert forall|i: int, j: int|
        0 <= i < d.input_channels.len() && 0 <= j < d.input_channels.len() && i != j
            implies #[trigger] d.input_channels[i].id != #[trigger] d.input_channels[j].id by {
        if i < n && j < n {
            assert(d.input_channels[i] == c.input_channels[i]);
            assert(d.input_channels[j] == c.input_channels[j]);
        } else if i < n {
            assert(d.input_channels[i] == c.input_channels[i]);
            assert(c.input_channels[i].id < c.next_id);
        } else {
            assert(d.input_channels[j] == c.input_channels[j]);
            assert(c.input_channels[j].id < c.next_id);
        }
    }
    assert forall|i: int, j: int|
        0 <= i < d.input_channels.len() && 0 <= j < d.return_channels.len()
            implies #[trigger] d.input_channels[i].id != #[trigger] d.return_channels[j].id by {
        assert(d.return_channels[j] == c.return_channels[j]);
        assert(c.return_channels[j].id < c.next_id);
        if i < n {
            assert(d.input_channels[i] == c.input_channels[i]);
        }
    }
}

/// The letter of the `n`-th return bus: `A` to `Z`, then again from `A`.
pub open spec fn return_letter(n: nat) -> char {
    (65 + n % 26) as char
}

/// The sink name of the return bus with id `id`.
pub open spec fn return_sink_of(id: u32) -> Seq<char> {
    "audibian_return_"@ + dec(id as nat)
}

/// The name a return bus gets when none is given: `Return <letter>`.
pub open spec fn default_return_name(n: nat) -> Seq<char> {
    "Return "@.push(return_letter(n))
}

/// A new return bus: unity fader, centre pan, playing to the master.
pub open spec fn new_return(id: u32, name: Seq<char>, order: u32) -> ReturnChannelView {
    ReturnChannelView {
        id,
        name,
        sink_name: return_sink_of(id),
        order,
        color: None,
        send_to_master: true,
        pan: CENTRE,
        fader: UNITY,
        muted: false,
        eq: None,
    }
}

/// The configuration after adding a return bus called `name`.
pub open spec fn return_added(c: MixerConfigView, name: Seq<char>) -> MixerConfigView {
    MixerConfigView {
        next_id: (c.next_id + 1) as u32,
        return_channels: c.return_channels.push(new_return(c.next_id, name, c.return_channels.len() as u32)),
        ..c
    }
}

/// Adds a return bus called `name` (or `Return <letter>`), with the next
/// free id, placed last. Gives the new bus's id, sink name and name.
pub fn add_return_channel(cfg: &mut MixerConfig, name: Option<String>) -> (r: (u32, String, String))
    requires
        old(cfg).next_id < u32::MAX,
    ensures
        r.0 == old(cfg).next_id,
        r.1@ == return_sink_of(r.0),
        r.2@ == (match name {
            Some(n) => n@,
            None => default_return_name(old(cfg).return_channels@.len() as nat),
        }),
        final(cfg)@ == return_added(old(cfg)@, r.2@),
{
    let id = cfg.next_channel_id();
    let n = cfg.return_channels.len();
    let letter = ((65 + n % 26) as u8) as char;
    assert(letter == return_letter(n as nat)) by {
        assert(65 + n % 26 < 256);
    }
    let digits = dec_u32(id);
    let sink_name = join2("audibian_return_", digits.as_str());
    #[verifier::truncate]
    let order = n as u32;
    let channel_name = match name {
        Some(v) => v,
        None => {
            let mut v = text_copy("Return ");
            push_char(&mut v, letter);
            v
        },
    };
    let ch = ReturnChannel {
        id,
        name: text_copy(channel_name.as_str()),
        sink_name: text_copy(sink_name.as_str()),
        order,
        color: None,
        send_to_master: true,
        pan: CENTRE,
        fader: UNITY,
        muted: false,
        eq: None,
    };
    let ghost added = ch@;
    cfg.return_channels.push(ch);
    assert(cfg@.return_channels =~= old(cfg)@.return_channels.push(added));
    (id, sink_name, channel_name)
}

/// Input strips other than `id`.
pub open spec fn input_not(id: u32) -> spec_fn(InputChannelView) -> bool {
    |x: InputChannelView| x.id != id
}

/// Return buses other than `id`.
pub open spec fn return_not(id: u32) -> spec_fn(ReturnChannelView) -> bool {
    |x: ReturnChannelView| x.id != id
}

/// Sends that do not start at input `id`.
pub open spec fn send_not_from(id: u32) -> spec_fn(SendRoute) -> bool {
    |s: SendRoute| s.input_channel_id != id
}

/// Sends that do not end at return `id`.
pub open spec fn send_not_to(id: u32) -> spec_fn(SendRoute) -> bool {
    |s: SendRoute| s.return_channel_id != id
}

/// Removes every input strip with id `id` and every send from it.
pub fn remove_input_channel(cfg: &mut MixerConfig, id: u32)
    ensures
        final(cfg)@ == (MixerConfigView {
            sends: old(cfg)@.sends.filter(send_not_from(id)),
            input_channels: old(cfg)@.input_channels.filter(input_not(id)),
            ..old(cfg)@
        }),
{
    let keep_send = |s: &SendRoute| -> (r: bool)
        ensures
            r == send_not_from(id)(*s),
        { s.input_channel_id != id };
    retain_where(&mut cfg.sends, keep_send, Ghost(send_not_from(id)));
    let keep = |c: &InputChannel| -> (r: bool)
        ensures
            r == input_not(id)(c@),
        { c.id != id };
    let ghost before = cfg.input_channels@;
    retain_viewed(&mut cfg.input_channels, keep, Ghost(input_not(id)));
    assert(inputs_view(cfg.input_channels@) =~= cfg.input_channels@.map_values(|x: InputChannel| x@));
    assert(inputs_view(before) =~= before.map_values(|x: InputChannel| x@));
}

/// Removes every return bus with id `id` and every send to it. Gives the
/// sink name of the first such bus, if any.
pub fn remove_return_channel(cfg: &mut MixerConfig, id: u32) -> (r: Option<String>)
    ensures
        r matches Some(s) ==> return_of(old(cfg)@, id) matches Some(x) && s@ == x.sink_name,
        r is None ==> return_of(old(cfg)@, id) is None,
        final(cfg)@ == (MixerConfigView {
            sends: old(cfg)@.sends.filter(send_not_to(id)),
            return_channels: old(cfg)@.return_channels.filter(return_not(id)),
            ..old(cfg)@
        }),
{
    let sink = match find_return(cfg, id) {
        Some(i) => Some(text_copy(cfg.return_channels[i].sink_name.as_str())),
        None => None,
    };
    let keep_send = |s: &SendRoute| -> (r: bool)
        ensures
            r == send_not_to(id)(*s),
        { s.return_channel_id != id };
    retain_where(&mut cfg.sends, keep_send, Ghost(send_not_to(id)));
    let keep = |c: &ReturnChannel| -> (r: bool)
        ensures
            r == return_not(id)(c@),
        { c.id != id };
    let ghost before = cfg.return_channels@;
    retain_viewed(&mut cfg.return_channels, keep, Ghost(return_not(id)));
    assert(returns_view(cfg.return_channels@) =~= cfg.return_channels@.map_values(|x: ReturnChannel| x@));
    assert(returns_view(before) =~= before.map_values(|x: ReturnChannel| x@));
    sink
}

fn replace_input(cfg: &mut MixerConfig, i: usize, c: InputChannel)
    requires
        i < old(cfg).input_channels@.len(),
    ensures
        final(cfg)@ == (MixerConfigView {
            input_channels: old(cfg)@.input_channels.update(i as int, c@),
            ..old(cfg)@
        }),
{
    let ghost v = c@;
    cfg.input_channels.set(i, c);
    assert(cfg@.input_channels =~= old(cfg)@.input_channels.update(i as int, v));
}

fn replace_return(cfg: &mut MixerConfig, i: usize, c: ReturnChannel)
    requires
        i < old(cfg).return_channels@.len(),
    ensures
        final(cfg)@ == (MixerConfigView {
            return_channels: old(cfg)@.return_channels.update(i as int, c@),
            ..old(cfg)@
        }),
{
    let ghost v = c@;
    cfg.return_channels.set(i, c);
    assert(cfg@.return_channels =~= old(cfg)@.return_channels.update(i as int, v));
}

/// Renames the first input strip with id `id`.
pub fn update_input_channel_name(cfg: &mut MixerConfig, id: u32, name: String)
    ensures
        final(cfg)@ == with_input(old(cfg)@, id, |x: InputChannelView| InputChannelView { name: name@, ..x }),
{
    match find_input(cfg, id) {
        Some(i) => {
            let mut c = cfg.input_channels[i].clone();
            c.name = name;
            replace_input(cfg, i, c);
        },
        None => {},
    }
}

/// Renames the first return bus with id `id`; gives its sink name.
pub fn update_return_channel_name(cfg: &mut MixerConfig, id: u32, name: String) -> (r: Option<String>)
    ensures
        final(cfg)@ == with_return(old(cfg)@, id, |x: ReturnChannelView| ReturnChannelView { name: name@, ..x }),
        r is Some == return_at(old(cfg)@, id) is Some,
        r matches Some(s) ==> s@ == return_of(old(cfg)@, id).unwrap().sink_name,
{
    match find_return(cfg, id) {
        Some(i) => {
            let mut c = cfg.return_channels[i].clone();
            c.name = name;
            let sink = text_copy(c.sink_name.as_str());
            replace_return(cfg, i, c);
            Some(sink)
        },
        None => None,
    }
}


/// The sink name of the first input strip with id `id`, if any.
pub open spec fn input_sink(c: MixerConfigView, id: u32) -> Option<Seq<char>> {
    match input_of(c, id) {
        Some(x) => Some(x.sink_name),
        None => None,
    }
}

/// The sink name of the first return bus with id `id`, if any.
pub open spec fn return_sink(c: MixerConfigView, id: u32) -> Option<Seq<char>> {
    match return_of(c, id) {
        Some(x) => Some(x.sink_name),
        None => None,
    }
}

fn input_sink_name(cfg: &MixerConfig, id: u32) -> (r: Option<String>)
    ensures
        opt_view(r) == input_sink(cfg@, id),
{
    match find_input(cfg, id) {
        Some(i) => Some(text_copy(cfg.input_channels[i].sink_name.as_str())),
        None => None,
    }
}

fn return_sink_name(cfg: &MixerConfig, id: u32) -> (r: Option<String>)
    ensures
        opt_view(r) == return_sink(cfg@, id),
{
    match find_return(cfg, id) {
        Some(i) => Some(text_copy(cfg.return_channels[i].sink_name.as_str())),
        None => None,
    }
}

/// The sends after turning the send from `input_id` to `return_id` on
/// (added at unity when missing) or off (every such send removed).
pub open spec fn sends_toggled(sends: Seq<SendRoute>, input_id: u32, return_id: u32, active: bool) -> Seq<
    SendRoute,
> {
    if active {
        if has_send_in(sends, input_id, return_id) {
            sends
        } else {
            sends.push(SendRoute { input_channel_id: input_id, return_channel_id: return_id, level: UNITY })
        }
    } else {
        sends.filter(|s: SendRoute| !send_is(s, input_id, return_id))
    }
}

/// Turns the send from `input_id` to `return_id` on or off. Gives the sink
/// names of the two strips (each when it exists), which the send loopback
/// joins.
pub fn toggle_send(cfg: &mut MixerConfig, input_id: u32, return_id: u32, active: bool) -> (r: (
    Option<String>,
    Option<String>,
))
    ensures
        opt_view(r.0) == input_sink(old(cfg)@, input_id),
        opt_view(r.1) == return_sink(old(cfg)@, return_id),
        final(cfg)@ == (MixerConfigView {
            sends: sends_toggled(old(cfg)@.sends, input_id, return_id, active),
            ..old(cfg)@
        }),
{
    let input_sink = input_sink_name(cfg, input_id);
    let ret_sink = return_sink_name(cfg, return_id);
    if active {
        cfg.add_send(input_id, return_id);
    } else {
        cfg.remove_send(input_id, return_id);
    }
    (input_sink, ret_sink)
}

/// Sets the level of the send from `input_id` to `return_id` (the caller
/// limits it) and gives the loopback module that carries that send, if one
/// is loaded.
pub fn set_send_level(
    cfg: &mut MixerConfig,
    send_ids: &[((u32, u32), u32)],
    input_id: u32,
    return_id: u32,
    level: u32,
) -> (r: Option<u32>)
    ensures
        final(cfg)@ == (MixerConfigView {
            sends: match crate::mixer::config::first_send(old(cfg)@.sends, input_id, return_id) {
                Some(i) => old(cfg)@.sends.update(i, SendRoute { level, ..old(cfg)@.sends[i] }),
                None => old(cfg)@.sends,
            },
            ..old(cfg)@
        }),
        r == module_of(send_ids@, (input_id, return_id)),
{
    cfg.set_send_level(input_id, return_id, level);
    find_module(send_ids, (input_id, return_id))
}

/// Sets the hardware source that feeds the first input strip with id `id`;
/// gives that strip's sink name and mono flag.
pub fn set_input_source(cfg: &mut MixerConfig, id: u32, source_name: Option<String>) -> (r: Option<
    (String, bool),
>)
    ensures
        final(cfg)@ == with_input(
            old(cfg)@,
            id,
            |x: InputChannelView| InputChannelView { source_name: opt_view(source_name), ..x },
        ),
        r is Some == input_at(old(cfg)@, id) is Some,
        r matches Some(p) ==> p.0@ == input_of(old(cfg)@, id).unwrap().sink_name && p.1 == input_of(
            old(cfg)@,
            id,
        ).unwrap().mono,
{
    match find_input(cfg, id) {
        Some(i) => {
            let mut c = cfg.input_channels[i].clone();
            c.source_name = source_name;
            let out = (text_copy(c.sink_name.as_str()), c.mono);
            replace_input(cfg, i, c);
            Some(out)
        },
        None => None,
    }
}

/// Sets the mono flag of the first input strip with id `id`; gives that
/// strip's source name and sink name.
pub fn set_input_mono(cfg: &mut MixerConfig, id: u32, mono: bool) -> (r: Option<(Option<String>, String)>)
    ensures
        final(cfg)@ == with_input(old(cfg)@, id, |x: InputChannelView| InputChannelView { mono, ..x }),
        r is Some == input_at(old(cfg)@, id) is Some,
        r matches Some(p) ==> opt_view(p.0) == input_of(old(cfg)@, id).unwrap().source_name && p.1@
            == input_of(old(cfg)@, id).unwrap().sink_name,
{
    match find_input(cfg, id) {
        Some(i) => {
            let mut c = cfg.input_channels[i].clone();
            c.mono = mono;
            let src = match &c.source_name {
                Some(s) => Some(text_copy(s.as_str())),
                None => None,
            };
            let out = (src, text_copy(c.sink_name.as_str()));
            replace_input(cfg, i, c);
            Some(out)
        },
        None => None,
    }
}

/// Sets whether the first return bus with id `id` plays to the master;
/// gives the name of its source (`<sink>_src`), which is what gets linked.
pub fn set_return_send_to_master(cfg: &mut MixerConfig, id: u32, send_to_master: bool) -> (r: Option<
    String,
>)
    ensures
        final(cfg)@ == with_return(
            old(cfg)@,
            id,
            |x: ReturnChannelView| ReturnChannelView { send_to_master, ..x },
        ),
        r is Some == return_at(old(cfg)@, id) is Some,
        r matches Some(s) ==> s@ == return_of(old(cfg)@, id).unwrap().sink_name + "_src"@,
{
    match find_return(cfg, id) {
        Some(i) => {
            let mut c = cfg.return_channels[i].clone();
            c.send_to_master = send_to_master;
            let src = join2(c.sink_name.as_str(), "_src");
            replace_return(cfg, i, c);
            Some(src)
        },
        None => None,
    }
}

/// Sets whether the first input strip with id `id` plays to the master;
/// gives its sink name.
pub fn set_input_send_to_master(cfg: &mut MixerConfig, id: u32, send_to_master: bool) -> (r: Option<
    String,
>)
    ensures
        final(cfg)@ == with_input(
            old(cfg)@,
            id,
            |x: InputChannelView| InputChannelView { send_to_master, ..x },
        ),
        opt_view(r) == input_sink(old(cfg)@, id),
{
    match find_input(cfg, id) {
        Some(i) => {
            let mut c = cfg.input_channels[i].clone();
            c.send_to_master = send_to_master;
            let sink = text_copy(c.sink_name.as_str());
            replace_input(cfg, i, c);
            Some(sink)
        },
        None => None,
    }
}

/// Sets the colour of the first strip of the given kind with id `id`.
pub fn set_channel_color(cfg: &mut MixerConfig, id: u32, is_input: bool, color: String)
    ensures
        final(cfg)@ == if is_input {
            with_input(old(cfg)@, id, |x: InputChannelView| InputChannelView { color: Some(color@), ..x })
        } else {
            with_return(old(cfg)@, id, |x: ReturnChannelView| ReturnChannelView { color: Some(color@), ..x })
        },
{
    if is_input {
        match find_input(cfg, id) {
            Some(i) => {
                let mut c = cfg.input_channels[i].clone();
                c.color = Some(color);
                replace_input(cfg, i, c);
            },
            None => {},
        }
    } else {
        match find_return(cfg, id) {
            Some(i) => {
                let mut c = cfg.return_channels[i].clone();
                c.color = Some(color);
                replace_return(cfg, i, c);
            },
            None => {},
        }
    }
}

/// Sets the interface scale (the caller limits it to 0.5..=2.5).
pub fn set_global_scale(cfg: &mut MixerConfig, scale: u32)
    ensures
        final(cfg)@ == (MixerConfigView { global_scale: scale, ..old(cfg)@ }),
{
    cfg.global_scale = scale;
}

/// Sets the hardware output the master bus plays to.
pub fn set_master_sink(cfg: &mut MixerConfig, sink_name: Option<String>)
    ensures
        final(cfg)@ == (MixerConfigView { master_sink: opt_view(sink_name), ..old(cfg)@ }),
{
    cfg.master_sink = sink_name;
}

/// Sets the application match rules of the first input strip with id `id`.
pub fn set_input_match_rules(cfg: &mut MixerConfig, id: u32, rules: Vec<String>)
    ensures
        final(cfg)@ == with_input(
            old(cfg)@,
            id,
            |x: InputChannelView| InputChannelView { app_match_rules: texts_view(rules@), ..x },
        ),
{
    match find_input(cfg, id) {
        Some(i) => {
            let mut c = cfg.input_channels[i].clone();
            c.app_match_rules = rules;
            replace_input(cfg, i, c);
        },
        None => {},
    }
}

/// The input strips after making `id` the default one: exactly the strips
/// with that id are flagged.
pub open spec fn defaults_to(v: Seq<InputChannelView>, id: u32) -> Seq<InputChannelView> {
    v.map_values(|x: InputChannelView| InputChannelView { is_default: x.id == id, ..x })
}

/// Makes the strips with id `id` the default destination of new streams
/// (clearing the flag everywhere else), or clears the flag of the first
/// strip with that id.
pub fn set_input_is_default(cfg: &mut MixerConfig, id: u32, is_default: bool)
    ensures
        final(cfg)@ == if is_default {
            MixerConfigView { input_channels: defaults_to(old(cfg)@.input_channels, id), ..old(cfg)@ }
        } else {
            with_input(old(cfg)@, id, |x: InputChannelView| InputChannelView { is_default: false, ..x })
        },
{
    if is_default {
        let mut k: usize = 0;
        while k < cfg.input_channels.len()
            invariant
                k <= cfg.input_channels@.len(),
                cfg.input_channels@.len() == old(cfg).input_channels@.len(),
                cfg@ == (MixerConfigView { input_channels: cfg@.input_channels, ..old(cfg)@ }),
                forall|j: int| 0 <= j < k ==> #[trigger] cfg@.input_channels[j] == (InputChannelView {
                    is_default: old(cfg)@.input_channels[j].id == id,
                    ..old(cfg)@.input_channels[j]
                }),
                forall|j: int| k <= j < cfg@.input_channels.len() ==> #[trigger] cfg@.input_channels[j]
                    == old(cfg)@.input_channels[j],
            decreases cfg.input_channels@.len() - k,
        {
            assert(old(cfg)@.input_channels.len() == old(cfg).input_channels@.len());
            let mut c = cfg.input_channels[k].clone();
            assert(cfg@.input_channels[k as int] == cfg.input_channels@[k as int]@);
            assert(c@ == old(cfg)@.input_channels[k as int]);
            c.is_default = c.id == id;
            replace_input(cfg, k, c);
            assert(cfg@.input_channels[k as int] == (InputChannelView {
                is_default: old(cfg)@.input_channels[k as int].id == id,
                ..old(cfg)@.input_channels[k as int]
            }));
            assert(cfg@.input_channels.len() == cfg.input_channels@.len());
            assert(old(cfg)@.input_channels.len() == old(cfg).input_channels@.len());
            k += 1;
        }
        assert(cfg@.input_channels =~= defaults_to(old(cfg)@.input_channels, id));
    } else {
        match find_input(cfg, id) {
            Some(i) => {
                let mut c = cfg.input_channels[i].clone();
                c.is_default = false;
                replace_input(cfg, i, c);
            },
            None => {},
        }
    }
}

/// After making `id` the default strip, a strip is the default exactly when
/// it has that id; with distinct strip ids at most one strip is the default.
pub proof fn lemma_single_default(v: Seq<InputChannelView>, id: u32)
    requires
        forall|i: int, j: int|
            0 <= i < v.len() && 0 <= j < v.len() && i != j ==> #[trigger] v[i].id != #[trigger] v[j].id,
    ensures
        forall|i: int|
            0 <= i < v.len() ==> (#[trigger] defaults_to(v, id)[i].is_default <==> v[i].id == id),
        forall|i: int, j: int|
            0 <= i < v.len() && 0 <= j < v.len() && #[trigger] defaults_to(v, id)[i].is_default
                && #[trigger] defaults_to(v, id)[j].is_default ==> i == j,
{
}

/// Stores the EQ of the first input strip with id `id` and gives that
/// strip's sink name. Return strips keep no EQ: for them nothing changes.
pub fn set_strip_eq(cfg: &mut MixerConfig, id: u32, is_input: bool, eq: StripEq) -> (r: Option<String>)
    ensures
        !is_input ==> final(cfg)@ == old(cfg)@ && r is None,
        is_input ==> final(cfg)@ == with_input(
            old(cfg)@,
            id,
            |x: InputChannelView| InputChannelView { eq: eq_view(Some(eq)), ..x },
        ) && opt_view(r) == input_sink(old(cfg)@, id),
{
    if !is_input {
        return None;
    }
    match find_input(cfg, id) {
        Some(i) => {
            let mut c = cfg.input_channels[i].clone();
            c.eq = Some(eq);
            let sink = text_copy(c.sink_name.as_str());
            replace_input(cfg, i, c);
            Some(sink)
        },
        None => None,
    }
}


/// The position of the last occurrence of `id` in `order`.
pub open spec fn last_index(order: Seq<u32>, id: u32) -> Option<int>
    decreases order.len(),
{
    if order.len() == 0 {
        None
    } else if order.last() == id {
        Some(order.len() - 1)
    } else {
        last_index(order.drop_last(), id)
    }
}

/// The input strips after giving each id listed in `order` its position
/// there (its last one) as display order. Only the first strip with a
/// given id is touched.
pub open spec fn inputs_reordered(v: Seq<InputChannelView>, order: Seq<u32>) -> Seq<InputChannelView> {
    Seq::new(
        v.len(),
        |k: int|
            if first_where(v, input_id_is(v[k].id)) == Some(k) {
                match last_index(order, v[k].id) {
                    Some(i) => InputChannelView { order: i as u32, ..v[k] },
                    None => v[k],
                }
            } else {
                v[k]
            },
    )
}

/// The return buses after giving each id listed in `order` its position
/// there (its last one) as display order. Only the first bus with a given
/// id is touched.
pub open spec fn returns_reordered(v: Seq<ReturnChannelView>, order: Seq<u32>) -> Seq<ReturnChannelView> {
    Seq::new(
        v.len(),
        |k: int|
            if first_where(v, return_id_is(v[k].id)) == Some(k) {
                match last_index(order, v[k].id) {
                    Some(i) => ReturnChannelView { order: i as u32, ..v[k] },
                    None => v[k],
                }
            } else {
                v[k]
            },
    )
}

proof fn lemma_last_index_step(order: Seq<u32>, i: int, x: u32)
    requires
        0 <= i < order.len(),
    ensures
        last_index(order.take(i + 1), x) == if x == order[i] {
            Some(i)
        } else {
            last_index(order.take(i), x)
        },
{
    assert(order.take(i + 1).drop_last() =~= order.take(i));
}

proof fn lemma_inputs_reorder_step(v: Seq<InputChannelView>, order: Seq<u32>, i: int)
    requires
        0 <= i < order.len(),
    ensures
        inputs_reordered(v, order.take(i + 1)) == match first_where(v, input_id_is(order[i])) {
            Some(p) => inputs_reordered(v, order.take(i)).update(
                p,
                InputChannelView { order: i as u32, ..inputs_reordered(v, order.take(i))[p] },
            ),
            None => inputs_reordered(v, order.take(i)),
        },
{
    let before = inputs_reordered(v, order.take(i));
    let after = inputs_reordered(v, order.take(i + 1));
    let x = order[i];
    crate::seqs::lemma_first_where(v, input_id_is(x));
    assert forall|k: int| 0 <= k < v.len() implies #[trigger] after[k] == match first_where(
        v,
        input_id_is(x),
    ) {
        Some(p) => before.update(p, InputChannelView { order: i as u32, ..before[p] }),
        None => before,
    }[k] by {
        lemma_last_index_step(order, i, v[k].id);
        crate::seqs::lemma_first_where(v, input_id_is(v[k].id));
        if v[k].id == x {
            assert(input_id_is(v[k].id) == input_id_is(x));
        }
    }
    match first_where(v, input_id_is(x)) {
        Some(p) => {
            assert(after =~= before.update(p, InputChannelView { order: i as u32, ..before[p] }));
        },
        None => {
            assert(after =~= before);
        },
    }
}

proof fn lemma_returns_reorder_step(v: Seq<ReturnChannelView>, order: Seq<u32>, i: int)
    requires
        0 <= i < order.len(),
    ensures
        returns_reordered(v, order.take(i + 1)) == match first_where(v, return_id_is(order[i])) {
            Some(p) => returns_reordered(v, order.take(i)).update(
                p,
                ReturnChannelView { order: i as u32, ..returns_reordered(v, order.take(i))[p] },
            ),
            None => returns_reordered(v, order.take(i)),
        },
{
    let before = returns_reordered(v, order.take(i));
    let after = returns_reordered(v, order.take(i + 1));
    let x = order[i];
    crate::seqs::lemma_first_where(v, return_id_is(x));
    assert forall|k: int| 0 <= k < v.len() implies #[trigger] after[k] == match first_where(
        v,
        return_id_is(x),
    ) {
        Some(p) => before.update(p, ReturnChannelView { order: i as u32, ..before[p] }),
        None => before,
    }[k] by {
        lemma_last_index_step(order, i, v[k].id);
        crate::seqs::lemma_first_where(v, return_id_is(v[k].id));
        if v[k].id == x {
            assert(return_id_is(v[k].id) == return_id_is(x));
        }
    }
    match first_where(v, return_id_is(x)) {
        Some(p) => {
            assert(after =~= before.update(p, ReturnChannelView { order: i as u32, ..before[p] }));
        },
        None => {
            assert(after =~= before);
        },
    }
}

/// Gives every strip its position in `input_order` / `return_order` as its
/// display order.
pub fn reorder_channels(cfg: &mut MixerConfig, input_order: &[u32], return_order: &[u32])
    ensures
        final(cfg)@ == (MixerConfigView {
            input_channels: inputs_reordered(old(cfg)@.input_channels, input_order@),
            return_channels: returns_reordered(old(cfg)@.return_channels, return_order@),
            ..old(cfg)@
        }),
{
    let ghost ins = old(cfg)@.input_channels;
    let ghost rets = old(cfg)@.return_channels;
    assert(inputs_reordered(ins, input_order@.take(0)) =~= ins);
    let mut i: usize = 0;
    while i < input_order.len()
        invariant
            i <= input_order@.len(),
            ins == old(cfg)@.input_channels,
            cfg@ == (MixerConfigView {
                input_channels: inputs_reordered(ins, input_order@.take(i as int)),
                ..old(cfg)@
            }),
        decreases input_order@.len() - i,
    {
        let id = input_order[i];
        proof {
            lemma_inputs_reorder_step(ins, input_order@, i as int);
            lemma_first_where_same(cfg@.input_channels, ins, input_id_is(id), input_id_is(id));
        }
        match find_input(cfg, id) {
            Some(p) => {
                let mut c = cfg.input_channels[p].clone();
                #[verifier::truncate]
                let o = i as u32;
                c.order = o;
                replace_input(cfg, p, c);
            },
            None => {},
        }
        i += 1;
    }
    assert(input_order@.take(input_order@.len() as int) =~= input_order@);
    assert(returns_reordered(rets, return_order@.take(0)) =~= rets);
    let mut j: usize = 0;
    while j < return_order.len()
        invariant
            j <= return_order@.len(),
            rets == old(cfg)@.return_channels,
            cfg@ == (MixerConfigView {
                input_channels: inputs_reordered(ins, input_order@),
                return_channels: returns_reordered(rets, return_order@.take(j as int)),
                ..old(cfg)@
            }),
        decreases return_order@.len() - j,
    {
        let id = return_order[j];
        proof {
            lemma_returns_reorder_step(rets, return_order@, j as int);
            lemma_first_where_same(cfg@.return_channels, rets, return_id_is(id), return_id_is(id));
        }
        match find_return(cfg, id) {
            Some(p) => {
                let mut c = cfg.return_channels[p].clone();
                #[verifier::truncate]
                let o = j as u32;
                c.order = o;
                replace_return(cfg, p, c);
            },
            None => {},
        }
        j += 1;
    }
    assert(return_order@.take(return_order@.len() as int) =~= return_order@);
}


/// Turning a send on and then off again leaves the sends as they were,
/// when there was no such send before.
pub proof fn lemma_toggle_send_roundtrip(sends: Seq<SendRoute>, input_id: u32, return_id: u32)
    requires
        !has_send_in(sends, input_id, return_id),
    ensures
        sends_toggled(sends_toggled(sends, input_id, return_id, true), input_id, return_id, false)
            == sends,
    decreases sends.len(),
{
    let p = |s: SendRoute| !send_is(s, input_id, return_id);
    let added = SendRoute { input_channel_id: input_id, return_channel_id: return_id, level: UNITY };
    reveal(Seq::filter);
    sends.lemma_filter_push(added, p);
    assert forall|k: int| 0 <= k < sends.len() implies p(#[trigger] sends[k]) by {
        if send_is(sends[k], input_id, return_id) {
            assert(has_send_in(sends, input_id, return_id));
        }
    }
    lemma_filter_keeps_all(sends, p);
}

proof fn lemma_filter_keeps_all(s: Seq<SendRoute>, p: spec_fn(SendRoute) -> bool)
    requires
        forall|k: int| 0 <= k < s.len() ==> p(#[trigger] s[k]),
    ensures
        s.filter(p) == s,
    decreases s.len(),
{
    reveal(Seq::filter);
    if s.len() > 0 {
        lemma_filter_keeps_all(s.drop_last(), p);
        assert(s =~= s.drop_last().push(s.last()));
        s.drop_last().lemma_filter_push(s.last(), p);
    } else {
        assert(s.filter(p) =~= s);
    }
}

/// After turning a send off, no send joins those two strips.
pub proof fn lemma_toggle_send_off(sends: Seq<SendRoute>, input_id: u32, return_id: u32)
    ensures
        !has_send_in(sends_toggled(sends, input_id, return_id, false), input_id, return_id),
{
    let p = |s: SendRoute| !send_is(s, input_id, return_id);
    let f = sends.filter(p);
    broadcast use vstd::seq_lib::group_filter_ensures;
    if has_send_in(f, input_id, return_id) {
        let k = choose|k: int| 0 <= k < f.len() && send_is(#[trigger] f[k], input_id, return_id);
        assert(p(f[k]));
    }
}

/// Adding a return bus keeps strip ids distinct and below the next id.
pub proof fn lemma_add_return_keeps_ids(c: MixerConfigView, name: Seq<char>)
    requires
        ids_below_next(c),
        c.next_id < u32::MAX,
        forall|i: int, j: int|
            0 <= i < c.return_channels.len() && 0 <= j < c.return_channels.len() && i != j
                ==> #[trigger] c.return_channels[i].id != #[trigger] c.return_channels[j].id,
        forall|i: int, j: int|
            0 <= i < c.input_channels.len() && 0 <= j < c.return_channels.len()
                ==> #[trigger] c.input_channels[i].id != #[trigger] c.return_channels[j].id,
    ensures
        ids_below_next(return_added(c, name)),
        forall|i: int, j: int|
            0 <= i < return_added(c, name).return_channels.len() && 0 <= j < return_added(
                c,
                name,
            ).return_channels.len() && i != j ==> #[trigger] return_added(c, name).return_channels[i].id
                != #[trigger] return_added(c, name).return_channels[j].id,
        forall|i: int, j: int|
            0 <= i < return_added(c, name).input_channels.len() && 0 <= j < return_added(
                c,
                name,
            ).return_channels.len() ==> #[trigger] return_added(c, name).input_channels[i].id
                != #[trigger] return_added(c, name).return_channels[j].id,
{
    let d = return_added(c, name);
    let n = c.return_channels.len() as int;
    assert forall|i: int| 0 <= i < d.return_channels.len() implies #[trigger] d.return_channels[i].id
        < d.next_id by {
        if i < n {
            assert(d.return_channels[i] == c.return_channels[i]);
        }
    }
    assert forall|i: int, j: int|
        0 <= i < d.return_channels.len() && 0 <= j < d.return_channels.len() && i != j
            implies #[trigger] d.return_channels[i].id != #[trigger] d.return_channels[j].id by {
        if i < n && j < n {
            assert(d.return_channels[i] == c.return_channels[i]);
            assert(d.return_channels[j] == c.return_channels[j]);
        } else if i < n {
            assert(d.return_channels[i] == c.return_channels[i]);
            assert(c.return_channels[i].id < c.next_id);
        } else {
            assert(d.return_channels[j] == c.return_channels[j]);
            assert(c.return_channels[j].id < c.next_id);
        }
    }
    assert forall|i: int, j: int|
        0 <= i < d.input_channels.len() && 0 <= j < d.return_channels.len()
            implies #[trigger] d.input_channels[i].id != #[trigger] d.return_channels[j].id by {
        assert(d.input_channels[i] == c.input_channels[i]);
        assert(c.input_channels[i].id < c.next_id);
        if j < n {
            assert(d.return_channels[j] == c.return_channels[j]);
        }
    }
}

} // verus!

//! Where strips send their audio: send loopbacks, the source an input strip
//! is monitored from, and which strip a new application stream goes to.
use vstd::prelude::*;

use crate::audio::strip_eq::{eq_source_of, source_name_for};
use crate::commands::strips::{find_input, find_return, input_of, return_of};
use crate::mixer::config::{InputChannel, InputChannelView, MixerConfig, MixerConfigView, SendRoute};
use crate::seqs::{find_first, first_where};
use crate::text::{contains, has_sub, join2, lowercase_of, text_copy, to_lowercase};

verus! {

/// The source an input strip is heard from: its EQ filter-chain's source
/// when its EQ is on, otherwise its sink's monitor.
pub open spec fn input_source_of(x: InputChannelView) -> Seq<char> {
    match x.eq {
        Some(e) if e.enabled => eq_source_of(x.sink_name),
        _ => x.sink_name + ".monitor"@,
    }
}

/// The source an input strip is heard from.
pub fn input_source_for(ch: &InputChannel) -> (r: String)
    ensures
        r@ == input_source_of(ch@),
{
    match &ch.eq {
        Some(eq) if eq.enabled => source_name_for(ch.sink_name.as_str()),
        _ => join2(ch.sink_name.as_str(), ".monitor"),
    }
}

/// A loopback that carries a send: from `source` into `sink`, at `level`.
#[derive(Debug)]
pub struct SendLoopback {
    pub input_id: u32,
    pub return_id: u32,
    pub source: String,
    pub sink: String,
    pub level: u32,
}

pub struct SendLoopbackView {
    pub input_id: u32,
    pub return_id: u32,
    pub source: Seq<char>,
    pub sink: Seq<char>,
    pub level: u32,
}

impl View for SendLoopback {
    type V = SendLoopbackView;

    open spec fn view(&self) -> SendLoopbackView {
        SendLoopbackView {
            input_id: self.input_id,
            return_id: self.return_id,
            source: self.source@,
            sink: self.sink@,
            level: self.level,
        }
    }
}

pub open spec fn loopbacks_view(v: Seq<SendLoopback>) -> Seq<SendLoopbackView> {
    v.map_values(|l: SendLoopback| l@)
}

/// The loopback of send `s`: from the monitor of its input strip's sink
/// into its return bus's sink; none when either strip is missing.
pub open spec fn send_loopback_of(c: MixerConfigView, s: SendRoute) -> Option<SendLoopbackView> {
    match (input_of(c, s.input_channel_id), return_of(c, s.return_channel_id)) {
        (Some(x), Some(y)) => Some(
            SendLoopbackView {
                input_id: x.id,
                return_id: y.id,
                source: x.sink_name + ".monitor"@,
                sink: y.sink_name,
                level: s.level,
            },
        ),
        _ => None,
    }
}

/// The loopbacks of the sends in `sends`, in order.
pub open spec fn send_loopbacks(c: MixerConfigView, sends: Seq<SendRoute>) -> Seq<SendLoopbackView>
    decreases sends.len(),
{
    if sends.len() == 0 {
        Seq::empty()
    } else {
        let rest = send_loopbacks(c, sends.drop_last());
        match send_loopback_of(c, sends.last()) {
            Some(l) => rest.push(l),
            None => rest,
        }
    }
}

/// The loopbacks to load so that every send whose strips both exist is
/// heard again, in send order.
pub fn restore_mixer_sends(cfg: &MixerConfig) -> (r: Vec<SendLoopback>)
    ensures
        loopbacks_view(r@) == send_loopbacks(cfg@, cfg@.sends),
{
    let mut out: Vec<SendLoopback> = Vec::new();
    let mut i: usize = 0;
    while i < cfg.sends.len()
        invariant
            i <= cfg.sends@.len(),
            loopbacks_view(out@) == send_loopbacks(cfg@, cfg@.sends.take(i as int)),
        decreases cfg.sends@.len() - i,
    {
        let s = cfg.sends[i];
        assert(cfg@.sends.take(i + 1).drop_last() =~= cfg@.sends.take(i as int));
        assert(cfg@.sends.take(i + 1).last() == s);
        match (find_input(cfg, s.input_channel_id), find_return(cfg, s.return_channel_id)) {
            (Some(a), Some(b)) => {
                let inp = &cfg.input_channels[a];
                let ret = &cfg.return_channels[b];
                let ghost before = out@;
                out.push(
                    SendLoopback {
                        input_id: inp.id,
                        return_id: ret.id,
                        source: join2(inp.sink_name.as_str(), ".monitor"),
                        sink: text_copy(ret.sink_name.as_str()),
                        level: s.level,
                    },
                );
                assert(loopbacks_view(out@) =~= loopbacks_view(before).push(
                    send_loopback_of(cfg@, s).unwrap(),
                ));
            },
            _ => {},
        }
        i += 1;
    }
    assert(cfg@.sends.take(cfg@.sends.len() as int) =~= cfg@.sends);
    out
}

/// A send of an input strip, as it is re-created: the return bus, its sink
/// and the send level.
#[derive(Debug)]
pub struct SendTarget {
    pub return_id: u32,
    pub sink: String,
    pub level: u32,
}

/// Everything needed to re-create an input strip's outgoing routes from a
/// new source.
#[derive(Debug)]
pub struct InputRouting {
    pub sink_name: String,
    pub source_name: String,
    pub send_to_master: bool,
    pub sends: Vec<SendTarget>,
}

pub open spec fn targets_view(v: Seq<SendTarget>) -> Seq<(u32, Seq<char>, u32)> {
    v.map_values(|t: SendTarget| (t.return_id, t.sink@, t.level))
}

/// The sends of input `id` whose return bus exists: (return id, return
/// sink, level), in send order.
pub open spec fn send_targets(c: MixerConfigView, sends: Seq<SendRoute>, id: u32) -> Seq<(u32, Seq<char>, u32)>
    decreases sends.len(),
{
    if sends.len() == 0 {
        Seq::empty()
    } else {
        let rest = send_targets(c, sends.drop_last(), id);
        let s = sends.last();
        if s.input_channel_id == id {
            match return_of(c, s.return_channel_id) {
                Some(y) => rest.push((s.return_channel_id, y.sink_name, s.level)),
                None => rest,
            }
        } else {
            rest
        }
    }
}

/// How the first input strip with id `id` is routed: its sink, the source
/// it is heard from, whether it plays to the master, and its sends. None
/// when there is no such strip.
pub fn input_routing(cfg: &MixerConfig, id: u32) -> (r: Option<InputRouting>)
    ensures
        r is Some == input_of(cfg@, id) is Some,
        r matches Some(p) ==> {
            let x = input_of(cfg@, id).unwrap();
            &&& p.sink_name@ == x.sink_name
            &&& p.source_name@ == input_source_of(x)
            &&& p.send_to_master == x.send_to_master
            &&& targets_view(p.sends@) == send_targets(cfg@, cfg@.sends, id)
        },
{
    let k = match find_input(cfg, id) {
        Some(k) => k,
        None => return None,
    };
    let ch = &cfg.input_channels[k];
    let mut targets: Vec<SendTarget> = Vec::new();
    let mut i: usize = 0;
    while i < cfg.sends.len()
        invariant
            i <= cfg.sends@.len(),
            targets_view(targets@) == send_targets(cfg@, cfg@.sends.take(i as int), id),
        decreases cfg.sends@.len() - i,
    {
        let s = cfg.sends[i];
        assert(cfg@.sends.take(i + 1).drop_last() =~= cfg@.sends.take(i as int));
        assert(cfg@.sends.take(i + 1).last() == s);
        if s.input_channel_id == id {
            match find_return(cfg, s.return_channel_id) {
                Some(b) => {
                    let ghost before = targets@;
                    targets.push(
                        SendTarget {
                            return_id: s.return_channel_id,
                            sink: text_copy(cfg.return_channels[b].sink_name.as_str()),
                            level: s.level,
                        },
                    );
                    assert(targets_view(targets@) =~= targets_view(before).push(
                        (s.return_channel_id, cfg@.return_channels[b as int].sink_name, s.level),
                    ));
                },
                None => {},
            }
        }
        i += 1;
    }
    assert(cfg@.sends.take(cfg@.sends.len() as int) =~= cfg@.sends);
    Some(
        InputRouting {
            sink_name: text_copy(ch.sink_name.as_str()),
            source_name: input_source_for(ch),
            send_to_master: ch.send_to_master,
            sends: targets,
        },
    )
}

/// A match rule picks an application when it is not empty and its
/// lower-case form occurs in the application's lower-case name.
pub open spec fn rule_picks(lower_app: Seq<char>, rule: Seq<char>) -> bool {
    rule.len() > 0 && has_sub(lower_app, lowercase_of(rule))
}

/// Some match rule of strip `x` picks the application.
pub open spec fn strip_picks(x: InputChannelView, lower_app: Seq<char>) -> bool {
    exists|j: int| 0 <= j < x.app_match_rules.len() && rule_picks(lower_app, #[trigger] x.app_match_rules[j])
}

pub open spec fn picks_app(lower_app: Seq<char>) -> spec_fn(InputChannelView) -> bool {
    |x: InputChannelView| strip_picks(x, lower_app)
}

pub open spec fn is_default_strip() -> spec_fn(InputChannelView) -> bool {
    |x: InputChannelView| x.is_default
}

/// The sink a new stream of application `app` is moved into: that of the
/// first strip with a rule that picks it, else that of the first default
/// strip, else none.
pub open spec fn strip_sink_for_app(c: MixerConfigView, app: Seq<char>) -> Option<Seq<char>> {
    strip_sink_for_lowered(c, lowercase_of(app))
}

/// The sink a new stream goes to, given the application's name in lower
/// case: that of the first strip with a rule that picks it, else that of the
/// first default strip, else none.
pub open spec fn strip_sink_for_lowered(c: MixerConfigView, lower_app: Seq<char>) -> Option<Seq<char>> {
    match first_where(c.input_channels, picks_app(lower_app)) {
        Some(i) => Some(c.input_channels[i].sink_name),
        None => match first_where(c.input_channels, is_default_strip()) {
            Some(i) => Some(c.input_channels[i].sink_name),
            None => None,
        },
    }
}

fn strip_picks_exec(ch: &InputChannel, lower: &str) -> (r: bool)
    ensures
        r == strip_picks(ch@, lower@),
{
    let mut j: usize = 0;
    while j < ch.app_match_rules.len()
        invariant
            j <= ch.app_match_rules@.len(),
            forall|k: int| 0 <= k < j ==> !rule_picks(lower@, #[trigger] ch@.app_match_rules[k]),
        decreases ch.app_match_rules@.len() - j,
    {
        let rule = &ch.app_match_rules[j];
        assert(ch@.app_match_rules[j as int] == rule@);
        if !rule.as_str().is_empty() {
            let lr = to_lowercase(rule.as_str());
            if contains(lower, lr.as_str()) {
                assert(rule_picks(lower@, ch@.app_match_rules[j as int]));
                return true;
            }
        }
        j += 1;
    }
    false
}

/// The sink of the strip a new stream of application `app_name` should go
/// to (see [`strip_sink_for_app`]).
pub fn pick_strip_sink_for_app(cfg: &MixerConfig, app_name: &str) -> (r: Option<String>)
    ensures
        crate::mixer::config::opt_view(r) == strip_sink_for_app(cfg@, app_name@),
{
    let lower = to_lowercase(app_name);
    pick_strip_sink_for_lowered(cfg, lower.as_str())
}

/// The sink of the strip a new stream should go to, given the application's
/// name already in lower case (see [`strip_sink_for_lowered`]).
pub fn pick_strip_sink_for_lowered(cfg: &MixerConfig, lower: &str) -> (r: Option<String>)
    ensures
        crate::mixer::config::opt_view(r) == strip_sink_for_lowered(cfg@, lower@),
{
    let mut i: usize = 0;
    while i < cfg.input_channels.len()
        invariant
            i <= cfg.input_channels@.len(),
            forall|k: int| 0 <= k < i ==> !picks_app(lower@)(#[trigger] cfg@.input_channels[k]),
        decreases cfg.input_channels@.len() - i,
    {
        if strip_picks_exec(&cfg.input_channels[i], lower) {
            proof {
                crate::seqs::lemma_first_where_at(cfg@.input_channels, picks_app(lower@), i as int);
            }
            return Some(text_copy(cfg.input_channels[i].sink_name.as_str()));
        }
        assert(!picks_app(lower@)(cfg@.input_channels[i as int]));
        i += 1;
    }
    proof {
        crate::seqs::lemma_first_where_none(cfg@.input_channels, picks_app(lower@));
    }
    let mut d: usize = 0;
    while d < cfg.input_channels.len()
        invariant
            d <= cfg.input_channels@.len(),
            first_where(cfg@.input_channels, picks_app(lower@)) is None,
            forall|k: int| 0 <= k < d ==> !is_default_strip()(#[trigger] cfg@.input_channels[k]),
        decreases cfg.input_channels@.len() - d,
    {
        if cfg.input_channels[d].is_default {
            proof {
                crate::seqs::lemma_first_where_at(cfg@.input_channels, is_default_strip(), d as int);
            }
            return Some(text_copy(cfg.input_channels[d].sink_name.as_str()));
        }
        assert(!is_default_strip()(cfg@.input_channels[d as int]));
        d += 1;
    }
    proof {
        crate::seqs::lemma_first_where_none(cfg@.input_channels, is_default_strip());
    }
    None
}

/// A match rule picks an application exactly when the rule is not empty
/// and its lower-case form occurs somewhere (at the start or anywhere
/// later) in the application's lower-case name.
pub proof fn lemma_rule_picks_anywhere(lower_app: Seq<char>, rule: Seq<char>)
    ensures
        rule_picks(lower_app, rule) <==> (rule.len() > 0 && exists|i: int|
            0 <= i && i + lowercase_of(rule).len() <= lower_app.len() && #[trigger] lower_app.subrange(
                i,
                i + lowercase_of(rule).len(),
            ) == lowercase_of(rule)),
{
    if rule.len() > 0 && exists|i: int|
        0 <= i && i + lowercase_of(rule).len() <= lower_app.len() && #[trigger] lower_app.subrange(
            i,
            i + lowercase_of(rule).len(),
        ) == lowercase_of(rule) {
        let i = choose|i: int|
            0 <= i && i + lowercase_of(rule).len() <= lower_app.len() && #[trigger] lower_app.subrange(
                i,
                i + lowercase_of(rule).len(),
            ) == lowercase_of(rule);
        assert(crate::text::occurs_at(lower_app, lowercase_of(rule), i));
    }
}

/// When some strip has a match rule whose lower-case form occurs anywhere in
/// the application's lower-case name, a new stream of that application goes
/// to a strip that has such a rule, and no earlier strip has one.
pub proof fn lemma_stream_goes_to_matching_strip(c: MixerConfigView, lower_app: Seq<char>, k: int, j: int, i: int)
    requires
        0 <= k < c.input_channels.len(),
        0 <= j < c.input_channels[k].app_match_rules.len(),
        c.input_channels[k].app_match_rules[j].len() > 0,
        0 <= i,
        i + lowercase_of(c.input_channels[k].app_match_rules[j]).len() <= lower_app.len(),
        lower_app.subrange(i, i + lowercase_of(c.input_channels[k].app_match_rules[j]).len())
            == lowercase_of(c.input_channels[k].app_match_rules[j]),
    ensures
        exists|m: int|
            0 <= m <= k && strip_sink_for_lowered(c, lower_app) == Some(c.input_channels[m].sink_name)
                && #[trigger] strip_picks(c.input_channels[m], lower_app) && forall|e: int|
                0 <= e < m ==> !strip_picks(#[trigger] c.input_channels[e], lower_app),
{
    let rule = c.input_channels[k].app_match_rules[j];
    lemma_rule_picks_anywhere(lower_app, rule);
    assert(rule_picks(lower_app, c.input_channels[k].app_match_rules[j]));
    assert(strip_picks(c.input_channels[k], lower_app));
    assert(picks_app(lower_app)(c.input_channels[k]));
    crate::seqs::lemma_first_where(c.input_channels, picks_app(lower_app));
    let m = first_where(c.input_channels, picks_app(lower_app)).unwrap();
    assert(picks_app(lower_app)(c.input_channels[m]));
    assert forall|e: int| 0 <= e < m implies !strip_picks(#[trigger] c.input_channels[e], lower_app) by {
        assert(!picks_app(lower_app)(c.input_channels[e]));
    }
}

} // verus!

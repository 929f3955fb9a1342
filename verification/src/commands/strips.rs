//! Finding strips by id and changing their volume, pan and mute.
use vstd::prelude::*;

use crate::commands::solo::{
    effective_mute, solo_added, solo_removed, strip_key, strip_key_of, SoloSet, StripLevels,
    StripLevelsView,
};
use crate::mixer::config::{
    InputChannelView, MixerConfig, MixerConfigView, ReturnChannelView, SendRoute,
};
use crate::seqs::{first_where, lemma_first_where_at, lemma_first_where_none};
use crate::text::text_copy;

verus! {

/// Node name of the master bus. Every strip that plays to the master
/// loops back into this sink; its monitor is looped to the chosen output.
pub const MASTER_SINK_NAME: &'static str = "audibian_master";

pub open spec fn input_id_is(id: u32) -> spec_fn(InputChannelView) -> bool {
    |x: InputChannelView| x.id == id
}

pub open spec fn return_id_is(id: u32) -> spec_fn(ReturnChannelView) -> bool {
    |x: ReturnChannelView| x.id == id
}

/// Position of the first input strip with id `id`.
pub open spec fn input_at(c: MixerConfigView, id: u32) -> Option<int> {
    first_where(c.input_channels, input_id_is(id))
}

/// Position of the first return strip with id `id`.
pub open spec fn return_at(c: MixerConfigView, id: u32) -> Option<int> {
    first_where(c.return_channels, return_id_is(id))
}

/// The first input strip with id `id`.
pub open spec fn input_of(c: MixerConfigView, id: u32) -> Option<InputChannelView> {
    match input_at(c, id) {
        Some(i) => Some(c.input_channels[i]),
        None => None,
    }
}

/// The first return strip with id `id`.
pub open spec fn return_of(c: MixerConfigView, id: u32) -> Option<ReturnChannelView> {
    match return_at(c, id) {
        Some(i) => Some(c.return_channels[i]),
        None => None,
    }
}

/// `c` with the first input strip with id `id` replaced by `f` of it.
pub open spec fn with_input(
    c: MixerConfigView,
    id: u32,
    f: spec_fn(InputChannelView) -> InputChannelView,
) -> MixerConfigView {
    match input_at(c, id) {
        Some(i) => MixerConfigView {
            input_channels: c.input_channels.update(i, f(c.input_channels[i])),
            ..c
        },
        None => c,
    }
}

/// `c` with the first return strip with id `id` replaced by `f` of it.
pub open spec fn with_return(
    c: MixerConfigView,
    id: u32,
    f: spec_fn(ReturnChannelView) -> ReturnChannelView,
) -> MixerConfigView {
    match return_at(c, id) {
        Some(i) => MixerConfigView {
            return_channels: c.return_channels.update(i, f(c.return_channels[i])),
            ..c
        },
        None => c,
    }
}

/// Sink, fader, pan and own mute flag of the first strip of the given kind
/// with id `id`.
pub open spec fn strip_state(c: MixerConfigView, is_input: bool, id: u32) -> Option<StripLevelsView> {
    if is_input {
        match input_of(c, id) {
            Some(x) => Some(StripLevelsView { sink: x.sink_name, fader: x.fader, pan: x.pan, muted: x.muted }),
            None => None,
        }
    } else {
        match return_of(c, id) {
            Some(x) => Some(StripLevelsView { sink: x.sink_name, fader: x.fader, pan: x.pan, muted: x.muted }),
            None => None,
        }
    }
}

/// `c` with fader, pan and mute flag of the first strip of the given kind
/// with id `id` set to those of `s`.
pub open spec fn strip_set(c: MixerConfigView, is_input: bool, id: u32, s: StripLevelsView) -> MixerConfigView {
    if is_input {
        with_input(c, id, |x: InputChannelView| InputChannelView { fader: s.fader, pan: s.pan, muted: s.muted, ..x })
    } else {
        with_return(c, id, |x: ReturnChannelView| ReturnChannelView { fader: s.fader, pan: s.pan, muted: s.muted, ..x })
    }
}

/// The position of the first input strip with id `id`.
pub(crate) fn find_input(cfg: &MixerConfig, id: u32) -> (r: Option<usize>)
    ensures
        r matches Some(i) ==> input_at(cfg@, id) == Some(i as int) && i < cfg.input_channels@.len(),
        r is None ==> input_at(cfg@, id) is None,
{
    let mut i: usize = 0;
    while i < cfg.input_channels.len()
        invariant
            i <= cfg.input_channels@.len(),
            forall|j: int| 0 <= j < i ==> !input_id_is(id)(#[trigger] cfg@.input_channels[j]),
        decreases cfg.input_channels@.len() - i,
    {
        if cfg.input_channels[i].id == id {
            proof {
                lemma_first_where_at(cfg@.input_channels, input_id_is(id), i as int);
            }
            return Some(i);
        }
        assert(!input_id_is(id)(cfg@.input_channels[i as int]));
        i += 1;
    }
    proof {
        lemma_first_where_none(cfg@.input_channels, input_id_is(id));
    }
    None
}

/// The position of the first return strip with id `id`.
pub(crate) fn find_return(cfg: &MixerConfig, id: u32) -> (r: Option<usize>)
    ensures
        r matches Some(i) ==> return_at(cfg@, id) == Some(i as int) && i < cfg.return_channels@.len(),
        r is None ==> return_at(cfg@, id) is None,
{
    let mut i: usize = 0;
    while i < cfg.return_channels.len()
        invariant
            i <= cfg.return_channels@.len(),
            forall|j: int| 0 <= j < i ==> !return_id_is(id)(#[trigger] cfg@.return_channels[j]),
        decreases cfg.return_channels@.len() - i,
    {
        if cfg.return_channels[i].id == id {
            proof {
                lemma_first_where_at(cfg@.return_channels, return_id_is(id), i as int);
            }
            return Some(i);
        }
        assert(!return_id_is(id)(cfg@.return_channels[i as int]));
        i += 1;
    }
    proof {
        lemma_first_where_none(cfg@.return_channels, return_id_is(id));
    }
    None
}

/// Sink, fader, pan and own mute flag of a strip, if it exists.
pub fn strip_levels(cfg: &MixerConfig, is_input: bool, id: u32) -> (r: Option<StripLevels>)
    ensures
        r is Some == strip_state(cfg@, is_input, id) is Some,
        r matches Some(l) ==> strip_state(cfg@, is_input, id) == Some(l@),
{
    if is_input {
        match find_input(cfg, id) {
            Some(i) => {
                let c = &cfg.input_channels[i];
                Some(StripLevels { sink: text_copy(c.sink_name.as_str()), fader: c.fader, pan: c.pan, muted: c.muted })
            },
            None => None,
        }
    } else {
        match find_return(cfg, id) {
            Some(i) => {
                let c = &cfg.return_channels[i];
                Some(StripLevels { sink: text_copy(c.sink_name.as_str()), fader: c.fader, pan: c.pan, muted: c.muted })
            },
            None => None,
        }
    }
}

fn write_strip(cfg: &mut MixerConfig, is_input: bool, id: u32, fader: u32, pan: u32, muted: bool)
    ensures
        final(cfg)@ == strip_set(
            old(cfg)@,
            is_input,
            id,
            StripLevelsView { sink: Seq::empty(), fader, pan, muted },
        ),
{
    let ghost s = StripLevelsView { sink: Seq::empty(), fader, pan, muted };
    if is_input {
        match find_input(cfg, id) {
            Some(i) => {
                let mut c = cfg.input_channels[i].clone();
                c.fader = fader;
                c.pan = pan;
                c.muted = muted;
                cfg.input_channels.set(i, c);
                assert(cfg@.input_channels =~= old(cfg)@.input_channels.update(
                    i as int,
                    InputChannelView { fader, pan, muted, ..old(cfg)@.input_channels[i as int] },
                ));
            },
            None => {},
        }
    } else {
        match find_return(cfg, id) {
            Some(i) => {
                let mut c = cfg.return_channels[i].clone();
                c.fader = fader;
                c.pan = pan;
                c.muted = muted;
                cfg.return_channels.set(i, c);
                assert(cfg@.return_channels =~= old(cfg)@.return_channels.update(
                    i as int,
                    ReturnChannelView { fader, pan, muted, ..old(cfg)@.return_channels[i as int] },
                ));
            },
            None => {},
        }
    }
}

/// The levels a changed strip is pushed with: its new fader, pan and mute
/// flag, muted in effect as the solo set says.
pub open spec fn pushed(s: StripLevelsView, solos: Seq<Seq<char>>, is_input: bool, id: u32) -> StripLevelsView {
    StripLevelsView { muted: effective_mute(s.muted, solos, strip_key_of(is_input, id)), ..s }
}

/// What a change of one strip's fader, pan or mute flag does: when the
/// strip exists, `next` of its state is stored and pushed; otherwise
/// nothing changes and nothing is pushed.
pub open spec fn strip_changed(
    before: MixerConfigView,
    after: MixerConfigView,
    r: Option<StripLevels>,
    solos: Seq<Seq<char>>,
    is_input: bool,
    id: u32,
    next: spec_fn(StripLevelsView) -> StripLevelsView,
) -> bool {
    match strip_state(before, is_input, id) {
        Some(s) => {
            &&& after == strip_set(before, is_input, id, next(s))
            &&& r matches Some(l) && l@ == pushed(next(s), solos, is_input, id)
        },
        None => after == before && r is None,
    }
}

fn change_strip(
    cfg: &mut MixerConfig,
    solos: &SoloSet,
    id: u32,
    is_input: bool,
    fader: Option<u32>,
    pan: Option<u32>,
    muted: Option<bool>,
) -> (r: Option<StripLevels>)
    ensures
        strip_changed(
            old(cfg)@,
            final(cfg)@,
            r,
            solos@,
            is_input,
            id,
            |s: StripLevelsView|
                StripLevelsView {
                    fader: match fader {
                        Some(v) => v,
                        None => s.fader,
                    },
                    pan: match pan {
                        Some(v) => v,
                        None => s.pan,
                    },
                    muted: match muted {
                        Some(v) => v,
                        None => s.muted,
                    },
                    ..s
                },
        ),
{
    match strip_levels(cfg, is_input, id) {
        Some(s) => {
            let f = match fader {
                Some(v) => v,
                None => s.fader,
            };
            let p = match pan {
                Some(v) => v,
                None => s.pan,
            };
            let m = match muted {
                Some(v) => v,
                None => s.muted,
            };
            write_strip(cfg, is_input, id, f, p, m);
            let key = strip_key(is_input, id);
            let eff = solos.is_effectively_muted(key.as_str(), m);
            Some(StripLevels { sink: s.sink, fader: f, pan: p, muted: eff })
        },
        None => None,
    }
}

/// Sets a strip's fader (the caller limits it to 0..=4) and gives the levels
/// to push to its sink.
pub fn set_strip_volume(cfg: &mut MixerConfig, solos: &SoloSet, id: u32, is_input: bool, volume: u32) -> (r:
    Option<StripLevels>)
    ensures
        strip_changed(
            old(cfg)@,
            final(cfg)@,
            r,
            solos@,
            is_input,
            id,
            |s: StripLevelsView| StripLevelsView { fader: volume, ..s },
        ),
{
    change_strip(cfg, solos, id, is_input, Some(volume), None, None)
}

/// Sets a strip's pan (the caller limits it to -1..=1) and gives the levels
/// to push to its sink.
pub fn set_strip_pan(cfg: &mut MixerConfig, solos: &SoloSet, id: u32, is_input: bool, pan: u32) -> (r:
    Option<StripLevels>)
    ensures
        strip_changed(
            old(cfg)@,
            final(cfg)@,
            r,
            solos@,
            is_input,
            id,
            |s: StripLevelsView| StripLevelsView { pan, ..s },
        ),
{
    change_strip(cfg, solos, id, is_input, None, Some(pan), None)
}

/// Sets a strip's mute flag and gives the levels to push to its sink.
pub fn set_strip_mute(cfg: &mut MixerConfig, solos: &SoloSet, id: u32, is_input: bool, muted: bool) -> (r:
    Option<StripLevels>)
    ensures
        strip_changed(
            old(cfg)@,
            final(cfg)@,
            r,
            solos@,
            is_input,
            id,
            |s: StripLevelsView| StripLevelsView { muted, ..s },
        ),
{
    change_strip(cfg, solos, id, is_input, None, None, Some(muted))
}


/// The levels pushed to an input strip's sink under the solo set `solos`.
pub open spec fn input_levels(x: InputChannelView, solos: Seq<Seq<char>>) -> StripLevelsView {
    StripLevelsView {
        sink: x.sink_name,
        fader: x.fader,
        pan: x.pan,
        muted: effective_mute(x.muted, solos, strip_key_of(true, x.id)),
    }
}

/// The levels pushed to a return strip's sink under the solo set `solos`.
pub open spec fn return_levels(x: ReturnChannelView, solos: Seq<Seq<char>>) -> StripLevelsView {
    StripLevelsView {
        sink: x.sink_name,
        fader: x.fader,
        pan: x.pan,
        muted: effective_mute(x.muted, solos, strip_key_of(false, x.id)),
    }
}

pub open spec fn levels_view(v: Seq<StripLevels>) -> Seq<StripLevelsView> {
    v.map_values(|l: StripLevels| l@)
}

/// The levels of every input strip, then of every return strip.
pub open spec fn all_strip_levels(c: MixerConfigView, solos: Seq<Seq<char>>) -> Seq<StripLevelsView> {
    c.input_channels.map_values(|x: InputChannelView| input_levels(x, solos))
        + c.return_channels.map_values(|x: ReturnChannelView| return_levels(x, solos))
}

/// The levels to push to every input and return strip, each muted in
/// effect as the solo set says. The master bus is not among them.
pub fn solo_mutes(cfg: &MixerConfig, solos: &SoloSet) -> (r: Vec<StripLevels>)
    ensures
        levels_view(r@) == all_strip_levels(cfg@, solos@),
{
    let ghost ins = cfg@.input_channels.map_values(|x: InputChannelView| input_levels(x, solos@));
    let ghost rets = cfg@.return_channels.map_values(|x: ReturnChannelView| return_levels(x, solos@));
    let mut out: Vec<StripLevels> = Vec::new();
    let mut i: usize = 0;
    while i < cfg.input_channels.len()
        invariant
            i <= cfg.input_channels@.len(),
            ins == cfg@.input_channels.map_values(|x: InputChannelView| input_levels(x, solos@)),
            levels_view(out@) == ins.take(i as int),
        decreases cfg.input_channels@.len() - i,
    {
        let c = &cfg.input_channels[i];
        let key = strip_key(true, c.id);
        let m = solos.is_effectively_muted(key.as_str(), c.muted);
        let ghost before = out@;
        out.push(StripLevels { sink: text_copy(c.sink_name.as_str()), fader: c.fader, pan: c.pan, muted: m });
        assert(levels_view(out@) =~= levels_view(before).push(ins[i as int]));
        assert(ins.take(i + 1) =~= ins.take(i as int).push(ins[i as int]));
        i += 1;
    }
    assert(ins.take(ins.len() as int) =~= ins);
    let mut j: usize = 0;
    while j < cfg.return_channels.len()
        invariant
            j <= cfg.return_channels@.len(),
            rets == cfg@.return_channels.map_values(|x: ReturnChannelView| return_levels(x, solos@)),
            levels_view(out@) == ins + rets.take(j as int),
        decreases cfg.return_channels@.len() - j,
    {
        let c = &cfg.return_channels[j];
        let key = strip_key(false, c.id);
        let m = solos.is_effectively_muted(key.as_str(), c.muted);
        let ghost before = out@;
        out.push(StripLevels { sink: text_copy(c.sink_name.as_str()), fader: c.fader, pan: c.pan, muted: m });
        assert(levels_view(out@) =~= levels_view(before).push(rets[j as int]));
        assert(ins + rets.take(j + 1) =~= (ins + rets.take(j as int)).push(rets[j as int]));
        j += 1;
    }
    assert(rets.take(rets.len() as int) =~= rets);
    out
}

/// Solos or un-solos a strip and gives the levels to push to every input
/// and return strip afterwards.
pub fn set_strip_solo(cfg: &MixerConfig, solos: &mut SoloSet, id: u32, is_input: bool, solo: bool) -> (r:
    Vec<StripLevels>)
    ensures
        final(solos)@ == if solo {
            solo_added(old(solos)@, strip_key_of(is_input, id))
        } else {
            solo_removed(old(solos)@, strip_key_of(is_input, id))
        },
        levels_view(r@) == all_strip_levels(cfg@, final(solos)@),
{
    let key = strip_key(is_input, id);
    if solo {
        solos.insert(key);
    } else {
        solos.remove(key.as_str());
    }
    solo_mutes(cfg, solos)
}

/// The levels of the master bus: its own fader, pan and mute flag; solo
/// never touches it.
pub open spec fn master_state(c: MixerConfigView) -> StripLevelsView {
    StripLevelsView {
        sink: MASTER_SINK_NAME@,
        fader: c.master_fader,
        pan: c.master_pan,
        muted: c.master_muted,
    }
}

/// The levels to push to the master bus.
pub fn master_levels(cfg: &MixerConfig) -> (r: StripLevels)
    ensures
        r@ == master_state(cfg@),
{
    StripLevels {
        sink: text_copy(MASTER_SINK_NAME),
        fader: cfg.master_fader,
        pan: cfg.master_pan,
        muted: cfg.master_muted,
    }
}

/// Sets the master fader (the caller limits it to 0..=4).
pub fn set_master_volume(cfg: &mut MixerConfig, volume: u32) -> (r: StripLevels)
    ensures
        final(cfg)@ == (MixerConfigView { master_fader: volume, ..old(cfg)@ }),
        r@ == master_state(final(cfg)@),
{
    cfg.master_fader = volume;
    master_levels(cfg)
}

/// Sets the master pan (the caller limits it to -1..=1).
pub fn set_master_pan(cfg: &mut MixerConfig, pan: u32) -> (r: StripLevels)
    ensures
        final(cfg)@ == (MixerConfigView { master_pan: pan, ..old(cfg)@ }),
        r@ == master_state(final(cfg)@),
{
    cfg.master_pan = pan;
    master_levels(cfg)
}

/// Sets the master mute flag.
pub fn set_master_mute(cfg: &mut MixerConfig, muted: bool) -> (r: StripLevels)
    ensures
        final(cfg)@ == (MixerConfigView { master_muted: muted, ..old(cfg)@ }),
        r@ == master_state(final(cfg)@),
{
    cfg.master_muted = muted;
    master_levels(cfg)
}

/// The loopback module that carries the send from input `k.0` to return
/// `k.1`, in a table of (send, module) entries.
pub open spec fn module_of(ids: Seq<((u32, u32), u32)>, k: (u32, u32)) -> Option<u32>
    decreases ids.len(),
{
    if ids.len() == 0 {
        None
    } else if ids[0].0 == k {
        Some(ids[0].1)
    } else {
        module_of(ids.drop_first(), k)
    }
}

/// The send loopback module that carries the send `k`, if one is loaded.
pub fn find_module(ids: &[((u32, u32), u32)], k: (u32, u32)) -> (r: Option<u32>)
    ensures
        r == module_of(ids@, k),
{
    let mut i: usize = 0;
    assert(ids@.skip(0) =~= ids@);
    while i < ids.len()
        invariant
            i <= ids@.len(),
            module_of(ids@, k) == module_of(ids@.skip(i as int), k),
        decreases ids@.len() - i,
    {
        assert(ids@.skip(i as int).drop_first() =~= ids@.skip(i + 1));
        if ids[i].0.0 == k.0 && ids[i].0.1 == k.1 {
            return Some(ids[i].1);
        }
        i += 1;
    }
    None
}

/// The (module, level) pairs that set the volume of every loaded send
/// loopback to its send's level, in send order.
pub open spec fn send_volumes(sends: Seq<SendRoute>, ids: Seq<((u32, u32), u32)>) -> Seq<(u32, u32)>
    decreases sends.len(),
{
    if sends.len() == 0 {
        Seq::empty()
    } else {
        let s = sends.last();
        let rest = send_volumes(sends.drop_last(), ids);
        match module_of(ids, (s.input_channel_id, s.return_channel_id)) {
            Some(m) => rest.push((m, s.level)),
            None => rest,
        }
    }
}

/// What pushes a restored configuration to the running modules: the levels
/// of every strip under the solo set, the master levels, and the volume of
/// every loaded send loopback.
pub fn snapshot_runtime_plan(cfg: &MixerConfig, solos: &SoloSet, send_ids: &[((u32, u32), u32)]) -> (r: (
    Vec<StripLevels>,
    StripLevels,
    Vec<(u32, u32)>,
))
    ensures
        levels_view(r.0@) == all_strip_levels(cfg@, solos@),
        r.1@ == master_state(cfg@),
        r.2@ == send_volumes(cfg.sends@, send_ids@),
{
    let strips = solo_mutes(cfg, solos);
    let master = master_levels(cfg);
    let mut vols: Vec<(u32, u32)> = Vec::new();
    let mut i: usize = 0;
    while i < cfg.sends.len()
        invariant
            i <= cfg.sends@.len(),
            vols@ == send_volumes(cfg.sends@.take(i as int), send_ids@),
        decreases cfg.sends@.len() - i,
    {
        let s = cfg.sends[i];
        assert(cfg.sends@.take(i + 1).drop_last() =~= cfg.sends@.take(i as int));
        match find_module(send_ids, (s.input_channel_id, s.return_channel_id)) {
            Some(m) => vols.push((m, s.level)),
            None => {},
        }
        i += 1;
    }
    assert(cfg.sends@.take(cfg.sends@.len() as int) =~= cfg.sends@);
    (strips, master, vols)
}

/// The levels pushed under a solo set: one per input strip, then one per
/// return bus, each with the strip's own sink, fader and pan, and muted
/// exactly when the strip is muted or something is soloed and that strip
/// (by its key `in:<id>` or `ret:<id>`) is not.
pub proof fn lemma_solo_levels(c: MixerConfigView, solos: Seq<Seq<char>>)
    ensures
        all_strip_levels(c, solos).len() == c.input_channels.len() + c.return_channels.len(),
        forall|i: int|
            0 <= i < c.input_channels.len() ==> {
                let l = #[trigger] all_strip_levels(c, solos)[i];
                let x = c.input_channels[i];
                &&& l.sink == x.sink_name && l.fader == x.fader && l.pan == x.pan
                &&& l.muted <==> (x.muted || (solos.len() > 0 && !solos.contains(
                    "in:"@ + crate::text::dec(x.id as nat),
                )))
            },
        forall|j: int|
            0 <= j < c.return_channels.len() ==> {
                let l = #[trigger] all_strip_levels(c, solos)[c.input_channels.len() + j];
                let x = c.return_channels[j];
                &&& l.sink == x.sink_name && l.fader == x.fader && l.pan == x.pan
                &&& l.muted <==> (x.muted || (solos.len() > 0 && !solos.contains(
                    "ret:"@ + crate::text::dec(x.id as nat),
                )))
            },
{
}

/// Soloing a return bus that is not muted leaves it heard: the level pushed
/// to it after the solo is unmuted, and every input strip that is not
/// soloed is silenced.
pub proof fn lemma_soloed_return_is_heard(c: MixerConfigView, solos: Seq<Seq<char>>, j: int)
    requires
        0 <= j < c.return_channels.len(),
        !c.return_channels[j].muted,
    ensures
        ({
            let after = solo_added(solos, "ret:"@ + crate::text::dec(c.return_channels[j].id as nat));
            &&& !all_strip_levels(c, after)[c.input_channels.len() + j].muted
            &&& forall|i: int|
                0 <= i < c.input_channels.len() && !after.contains(
                    "in:"@ + crate::text::dec(c.input_channels[i].id as nat),
                ) ==> (#[trigger] all_strip_levels(c, after)[i]).muted
        }),
{
    let key = "ret:"@ + crate::text::dec(c.return_channels[j].id as nat);
    let after = solo_added(solos, key);
    lemma_solo_levels(c, after);
    assert(after.contains(key)) by {
        if !solos.contains(key) {
            assert(after[after.len() - 1] == key);
        }
    }
}

/// Soloing an input strip that is not muted leaves it heard: the level
/// pushed to it after the solo is unmuted, and every return bus that is not
/// soloed is silenced.
pub proof fn lemma_soloed_input_is_heard(c: MixerConfigView, solos: Seq<Seq<char>>, i: int)
    requires
        0 <= i < c.input_channels.len(),
        !c.input_channels[i].muted,
    ensures
        ({
            let after = solo_added(solos, "in:"@ + crate::text::dec(c.input_channels[i].id as nat));
            &&& !all_strip_levels(c, after)[i].muted
            &&& forall|j: int|
                0 <= j < c.return_channels.len() && !after.contains(
                    "ret:"@ + crate::text::dec(c.return_channels[j].id as nat),
                ) ==> (#[trigger] all_strip_levels(c, after)[c.input_channels.len() + j]).muted
        }),
{
    let key = "in:"@ + crate::text::dec(c.input_channels[i].id as nat);
    let after = solo_added(solos, key);
    lemma_solo_levels(c, after);
    assert(after.contains(key)) by {
        if !solos.contains(key) {
            assert(after[after.len() - 1] == key);
        }
    }
}

} // verus!

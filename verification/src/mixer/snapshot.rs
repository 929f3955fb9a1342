//! Mixer snapshots: the levels and toggles of every strip, kept by profiles.
//!
//! A snapshot never holds structure (strips, buses, sends stay in the mixer
//! configuration). Applying one only updates the values of strips and sends
//! that exist, so applications stay connected.
use vstd::prelude::*;

use crate::mixer::config::{
    mixer_wf, send_is, eq_view, InputChannel, InputChannelView, MixerConfig, MixerConfigView, ReturnChannel,
    ReturnChannelView, SendRoute, StripEq, StripEqView,
};
use crate::seqs::{
    lemma_stored_all_unique, find_key, has_key, index_of_key, key_at, keys_unique, lemma_unique_index, lemma_upsert_unique,
    position_of, stored_all, upsert, upsert_by_key,
};
use crate::text::{dec, dec_u32, join3, lemma_dec_digits, lemma_dec_injective, same_text};

verus! {

broadcast use vstd::seq_lib::group_seq_properties;

/// Key of an id-keyed entry.
pub open spec fn id_key<V>() -> spec_fn((u32, V)) -> u32 {
    |e: (u32, V)| e.0
}

/// Key of a text-keyed entry.
pub open spec fn text_key<V>() -> spec_fn((Seq<char>, V)) -> Seq<char> {
    |e: (Seq<char>, V)| e.0
}

/// The value stored under `k`, if any.
pub open spec fn lookup<V>(s: Seq<(u32, V)>, k: u32) -> Option<V> {
    match find_key(s, id_key(), k) {
        Some(e) => Some(e.1),
        None => None,
    }
}

/// The value stored under text key `k`, if any.
pub open spec fn lookup_text<V>(s: Seq<(Seq<char>, V)>, k: Seq<char>) -> Option<V> {
    match find_key(s, text_key(), k) {
        Some(e) => Some(e.1),
        None => None,
    }
}

pub open spec fn or_else<V>(o: Option<V>, d: V) -> V {
    match o {
        Some(v) => v,
        None => d,
    }
}

/// The key under which the level of the send from `input_id` to
/// `return_id` is kept: `"<input_id>:<return_id>"`.
pub open spec fn send_key_of(input_id: u32, return_id: u32) -> Seq<char> {
    dec(input_id as nat) + ":"@ + dec(return_id as nat)
}

/// The key under which a send's level is kept (see [`send_key_of`]).
pub fn send_key(input_id: u32, return_id: u32) -> (r: String)
    ensures
        r@ == send_key_of(input_id, return_id),
{
    let a = dec_u32(input_id);
    let b = dec_u32(return_id);
    join3(a.as_str(), ":", b.as_str())
}

/// Persistable subset of mixer state for profiles: per-strip fader, mute
/// and pan (keyed by channel id), per-strip "send to master" toggles, send
/// levels keyed by [`send_key`], per-strip EQ, and the master strip values.
/// Fader, pan and level values are bit patterns of `f32` values.
#[derive(Debug)]
pub struct MixerSnapshot {
    pub fader: Vec<(u32, u32)>,
    pub mute: Vec<(u32, bool)>,
    pub pan: Vec<(u32, u32)>,
    pub input_to_master: Vec<(u32, bool)>,
    pub return_to_master: Vec<(u32, bool)>,
    pub send_levels: Vec<(String, u32)>,
    pub eq: Vec<(u32, StripEq)>,
    pub master_fader: Option<u32>,
    pub master_mute: Option<bool>,
    pub master_eq: Option<StripEq>,
}

pub struct MixerSnapshotView {
    pub fader: Seq<(u32, u32)>,
    pub mute: Seq<(u32, bool)>,
    pub pan: Seq<(u32, u32)>,
    pub input_to_master: Seq<(u32, bool)>,
    pub return_to_master: Seq<(u32, bool)>,
    pub send_levels: Seq<(Seq<char>, u32)>,
    pub eq: Seq<(u32, StripEqView)>,
    pub master_fader: Option<u32>,
    pub master_mute: Option<bool>,
    pub master_eq: Option<StripEqView>,
}

pub open spec fn levels_view(v: Seq<(String, u32)>) -> Seq<(Seq<char>, u32)> {
    v.map_values(|e: (String, u32)| (e.0@, e.1))
}

pub open spec fn eqs_view(v: Seq<(u32, StripEq)>) -> Seq<(u32, StripEqView)> {
    v.map_values(|e: (u32, StripEq)| (e.0, e.1@))
}

impl View for MixerSnapshot {
    type V = MixerSnapshotView;

    open spec fn view(&self) -> MixerSnapshotView {
        MixerSnapshotView {
            fader: self.fader@,
            mute: self.mute@,
            pan: self.pan@,
            input_to_master: self.input_to_master@,
            return_to_master: self.return_to_master@,
            send_levels: levels_view(self.send_levels@),
            eq: eqs_view(self.eq@),
            master_fader: self.master_fader,
            master_mute: self.master_mute,
            master_eq: eq_view(self.master_eq),
        }
    }
}

/// A snapshot with nothing in it.
pub open spec fn empty_snapshot() -> MixerSnapshotView {
    MixerSnapshotView {
        fader: Seq::empty(),
        mute: Seq::empty(),
        pan: Seq::empty(),
        input_to_master: Seq::empty(),
        return_to_master: Seq::empty(),
        send_levels: Seq::empty(),
        eq: Seq::empty(),
        master_fader: None,
        master_mute: None,
        master_eq: None,
    }
}

impl Default for MixerSnapshot {
    fn default() -> (r: Self)
        ensures
            r@ == empty_snapshot(),
    {
        let r = MixerSnapshot {
            fader: Vec::new(),
            mute: Vec::new(),
            pan: Vec::new(),
            input_to_master: Vec::new(),
            return_to_master: Vec::new(),
            send_levels: Vec::new(),
            eq: Vec::new(),
            master_fader: None,
            master_mute: None,
            master_eq: None,
        };
        assert(r@.send_levels =~= Seq::<(Seq<char>, u32)>::empty());
        assert(r@.eq =~= Seq::<(u32, StripEqView)>::empty());
        r
    }
}

/// Stores `x` under `k` in an id-keyed list.
fn store<V: Copy>(v: &mut Vec<(u32, V)>, k: u32, x: V)
    requires
        keys_unique(old(v)@, id_key()),
    ensures
        final(v)@ == upsert(old(v)@, id_key(), (k, x)),
        keys_unique(final(v)@, id_key()),
{
    let key = |e: &(u32, V)| -> (r: u32)
        ensures
            r == e.0,
        { e.0 };
    upsert_by_key(v, (k, x), key, Ghost(id_key()));
}

/// The value stored under `k` in an id-keyed list.
fn fetch<V: Copy>(v: &Vec<(u32, V)>, k: u32) -> (r: Option<V>)
    requires
        keys_unique(v@, id_key()),
    ensures
        r == lookup(v@, k),
{
    let key = |e: &(u32, V)| -> (r: u32)
        ensures
            r == e.0,
        { e.0 };
    match position_of(v, k, key, Ghost(id_key())) {
        Some(i) => {
            proof {
                lemma_unique_index(v@, id_key(), k, i as int);
            }
            Some(v[i].1)
        },
        None => None,
    }
}

/// Stores `x` under `k` in a text-keyed list.
fn store_text(v: &mut Vec<(String, u32)>, k: String, x: u32)
    requires
        keys_unique(levels_view(old(v)@), text_key()),
    ensures
        levels_view(final(v)@) == upsert(levels_view(old(v)@), text_key(), (k@, x)),
        keys_unique(levels_view(final(v)@), text_key()),
{
    let ghost old_view = levels_view(v@);
    let mut i: usize = 0;
    while i < v.len()
        invariant
            i <= v@.len(),
            old_view == levels_view(v@),
            v@ == old(v)@,
            keys_unique(old_view, text_key()),
            forall|j: int| 0 <= j < i ==> !key_at(old_view, text_key(), k@, j),
        decreases v@.len() - i,
    {
        if same_text(v[i].0.as_str(), k.as_str()) {
            proof {
                assert(key_at(old_view, text_key(), k@, i as int));
                lemma_unique_index(old_view, text_key(), k@, i as int);
                lemma_upsert_unique(old_view, text_key(), (k@, x));
            }
            v.set(i, (k, x));
            assert(levels_view(v@) =~= upsert(old_view, text_key(), (k@, x)));
            return;
        }
        i += 1;
    }
    proof {
        lemma_upsert_unique(old_view, text_key(), (k@, x));
    }
    v.push((k, x));
    assert(levels_view(v@) =~= upsert(old_view, text_key(), (k@, x)));
}

/// The value stored under text key `k`.
fn fetch_text(v: &Vec<(String, u32)>, k: &str) -> (r: Option<u32>)
    requires
        keys_unique(levels_view(v@), text_key()),
    ensures
        r == lookup_text(levels_view(v@), k@),
{
    let ghost view = levels_view(v@);
    let mut i: usize = 0;
    while i < v.len()
        invariant
            i <= v@.len(),
            view == levels_view(v@),
            keys_unique(view, text_key()),
            forall|j: int| 0 <= j < i ==> !key_at(view, text_key(), k@, j),
        decreases v@.len() - i,
    {
        if same_text(v[i].0.as_str(), k) {
            proof {
                assert(key_at(view, text_key(), k@, i as int));
                lemma_unique_index(view, text_key(), k@, i as int);
            }
            return Some(v[i].1);
        }
        i += 1;
    }
    None
}

/// Stores (a copy of) `e` under `k` in the EQ list.
fn store_eq(v: &mut Vec<(u32, StripEq)>, k: u32, e: &StripEq)
    requires
        keys_unique(eqs_view(old(v)@), id_key()),
    ensures
        eqs_view(final(v)@) == upsert(eqs_view(old(v)@), id_key(), (k, e@)),
        keys_unique(eqs_view(final(v)@), id_key()),
{
    let ghost old_view = eqs_view(v@);
    let mut i: usize = 0;
    while i < v.len()
        invariant
            i <= v@.len(),
            old_view == eqs_view(v@),
            v@ == old(v)@,
            keys_unique(old_view, id_key()),
            forall|j: int| 0 <= j < i ==> !key_at(old_view, id_key(), k, j),
        decreases v@.len() - i,
    {
        if v[i].0 == k {
            proof {
                assert(key_at(old_view, id_key(), k, i as int));
                lemma_unique_index(old_view, id_key(), k, i as int);
                lemma_upsert_unique(old_view, id_key(), (k, e@));
            }
            v.set(i, (k, e.clone()));
            assert(eqs_view(v@) =~= upsert(old_view, id_key(), (k, e@)));
            return;
        }
        i += 1;
    }
    proof {
        lemma_upsert_unique(old_view, id_key(), (k, e@));
    }
    v.push((k, e.clone()));
    assert(eqs_view(v@) =~= upsert(old_view, id_key(), (k, e@)));
}

/// The EQ stored under `k`.
fn fetch_eq(v: &Vec<(u32, StripEq)>, k: u32) -> (r: Option<&StripEq>)
    requires
        keys_unique(eqs_view(v@), id_key()),
    ensures
        r is Some == lookup(eqs_view(v@), k) is Some,
        r matches Some(e) ==> lookup(eqs_view(v@), k) == Some(e@),
{
    let ghost view = eqs_view(v@);
    let mut i: usize = 0;
    while i < v.len()
        invariant
            i <= v@.len(),
            view == eqs_view(v@),
            keys_unique(view, id_key()),
            forall|j: int| 0 <= j < i ==> !key_at(view, id_key(), k, j),
        decreases v@.len() - i,
    {
        if v[i].0 == k {
            proof {
                assert(key_at(view, id_key(), k, i as int));
                lemma_unique_index(view, id_key(), k, i as int);
            }
            return Some(&v[i].1);
        }
        i += 1;
    }
    None
}

/// Each of the snapshot's lists holds a key at most once.
pub open spec fn snapshot_wf(s: MixerSnapshotView) -> bool {
    &&& keys_unique(s.fader, id_key())
    &&& keys_unique(s.mute, id_key())
    &&& keys_unique(s.pan, id_key())
    &&& keys_unique(s.input_to_master, id_key())
    &&& keys_unique(s.return_to_master, id_key())
    &&& keys_unique(s.send_levels, text_key())
    &&& keys_unique(s.eq, id_key())
}

pub open spec fn input_fader(x: InputChannelView) -> (u32, u32) {
    (x.id, x.fader)
}

pub open spec fn return_fader(x: ReturnChannelView) -> (u32, u32) {
    (x.id, x.fader)
}

pub open spec fn input_pan(x: InputChannelView) -> (u32, u32) {
    (x.id, x.pan)
}

pub open spec fn return_pan(x: ReturnChannelView) -> (u32, u32) {
    (x.id, x.pan)
}

pub open spec fn input_mute(x: InputChannelView) -> (u32, bool) {
    (x.id, x.muted)
}

pub open spec fn return_mute(x: ReturnChannelView) -> (u32, bool) {
    (x.id, x.muted)
}

pub open spec fn input_master(x: InputChannelView) -> (u32, bool) {
    (x.id, x.send_to_master)
}

pub open spec fn return_master(x: ReturnChannelView) -> (u32, bool) {
    (x.id, x.send_to_master)
}

pub open spec fn input_eq(x: InputChannelView) -> Option<(u32, StripEqView)> {
    match x.eq {
        Some(e) => Some((x.id, e)),
        None => None,
    }
}

pub open spec fn return_eq(x: ReturnChannelView) -> Option<(u32, StripEqView)> {
    match x.eq {
        Some(e) => Some((x.id, e)),
        None => None,
    }
}

pub open spec fn send_level_entry(s: SendRoute) -> (Seq<char>, u32) {
    (send_key_of(s.input_channel_id, s.return_channel_id), s.level)
}

/// The snapshot of configuration `c`: each list holds one entry per strip
/// (inputs first, then returns; a later entry replaces an earlier one with
/// the same id), EQ entries only for strips that have an EQ, send levels
/// keyed by [`send_key_of`], and the master fader, mute and EQ.
pub open spec fn snapshot_of(c: MixerConfigView) -> MixerSnapshotView {
    MixerSnapshotView {
        fader: stored_all(
            c.input_channels.map_values(|x: InputChannelView| input_fader(x))
                + c.return_channels.map_values(|x: ReturnChannelView| return_fader(x)),
            id_key(),
        ),
        mute: stored_all(
            c.input_channels.map_values(|x: InputChannelView| input_mute(x))
                + c.return_channels.map_values(|x: ReturnChannelView| return_mute(x)),
            id_key(),
        ),
        pan: stored_all(
            c.input_channels.map_values(|x: InputChannelView| input_pan(x))
                + c.return_channels.map_values(|x: ReturnChannelView| return_pan(x)),
            id_key(),
        ),
        input_to_master: stored_all(
            c.input_channels.map_values(|x: InputChannelView| input_master(x)),
            id_key(),
        ),
        return_to_master: stored_all(
            c.return_channels.map_values(|x: ReturnChannelView| return_master(x)),
            id_key(),
        ),
        send_levels: stored_all(
            c.sends.map_values(|s: SendRoute| send_level_entry(s)),
            text_key(),
        ),
        eq: stored_all(
            c.input_channels.filter_map(|x: InputChannelView| input_eq(x))
                + c.return_channels.filter_map(|x: ReturnChannelView| return_eq(x)),
            id_key(),
        ),
        master_fader: Some(c.master_fader),
        master_mute: Some(c.master_muted),
        master_eq: c.master_eq,
    }
}

/// Input strip `x` after snapshot `s`: toggles, levels and EQ stored under
/// its id replace its own.
pub open spec fn input_applied(x: InputChannelView, s: MixerSnapshotView) -> InputChannelView {
    InputChannelView {
        send_to_master: or_else(lookup(s.input_to_master, x.id), x.send_to_master),
        pan: or_else(lookup(s.pan, x.id), x.pan),
        fader: or_else(lookup(s.fader, x.id), x.fader),
        muted: or_else(lookup(s.mute, x.id), x.muted),
        eq: match lookup(s.eq, x.id) {
            Some(e) => Some(e),
            None => x.eq,
        },
        ..x
    }
}

/// Return bus `x` after snapshot `s`.
pub open spec fn return_applied(x: ReturnChannelView, s: MixerSnapshotView) -> ReturnChannelView {
    ReturnChannelView {
        send_to_master: or_else(lookup(s.return_to_master, x.id), x.send_to_master),
        pan: or_else(lookup(s.pan, x.id), x.pan),
        fader: or_else(lookup(s.fader, x.id), x.fader),
        muted: or_else(lookup(s.mute, x.id), x.muted),
        eq: match lookup(s.eq, x.id) {
            Some(e) => Some(e),
            None => x.eq,
        },
        ..x
    }
}

/// Send `x` after snapshot `s`.
pub open spec fn send_applied(x: SendRoute, s: MixerSnapshotView) -> SendRoute {
    SendRoute {
        level: or_else(
            lookup_text(s.send_levels, send_key_of(x.input_channel_id, x.return_channel_id)),
            x.level,
        ),
        ..x
    }
}

/// Configuration `c` after snapshot `s`: same strips, buses and sends, with
/// their values replaced where the snapshot holds one.
pub open spec fn snapshot_applied(c: MixerConfigView, s: MixerSnapshotView) -> MixerConfigView {
    MixerConfigView {
        input_channels: c.input_channels.map_values(|x: InputChannelView| input_applied(x, s)),
        return_channels: c.return_channels.map_values(|x: ReturnChannelView| return_applied(x, s)),
        sends: c.sends.map_values(|x: SendRoute| send_applied(x, s)),
        master_fader: or_else(s.master_fader, c.master_fader),
        master_muted: or_else(s.master_mute, c.master_muted),
        master_eq: match s.master_eq {
            Some(e) => Some(e),
            None => c.master_eq,
        },
        ..c
    }
}

proof fn lemma_stored_all_push<T, K>(s: Seq<T>, key: spec_fn(T) -> K, x: T)
    ensures
        stored_all(s.push(x), key) == upsert(stored_all(s, key), key, x),
{
    assert(s.push(x).drop_last() =~= s);
}

fn ids_distinct<V>(v: &Vec<(u32, V)>) -> (r: bool)
    ensures
        r == keys_unique(v@, id_key()),
{
    let mut i: usize = 0;
    while i < v.len()
        invariant
            i <= v@.len(),
            forall|a: int, b: int|
                0 <= a < i && 0 <= b < v@.len() && a != b ==> (#[trigger] v@[a]).0 != (#[trigger] v@[b]).0,
        decreases v@.len() - i,
    {
        let mut j: usize = 0;
        while j < v.len()
            invariant
                i < v@.len(),
                j <= v@.len(),
                forall|a: int, b: int|
                    0 <= a < i && 0 <= b < v@.len() && a != b ==> (#[trigger] v@[a]).0 != (#[trigger] v@[b]).0,
                forall|b: int| 0 <= b < j && b != i ==> v@[i as int].0 != (#[trigger] v@[b]).0,
            decreases v@.len() - j,
        {
            if j != i && v[i].0 == v[j].0 {
                assert(!keys_unique(v@, id_key()) ) by {
                    assert(id_key()(v@[i as int]) == id_key()(v@[j as int]));
                }
                return false;
            }
            j += 1;
        }
        i += 1;
    }
    true
}

fn texts_distinct(v: &Vec<(String, u32)>) -> (r: bool)
    ensures
        r == keys_unique(levels_view(v@), text_key()),
{
    let ghost w = levels_view(v@);
    let mut i: usize = 0;
    while i < v.len()
        invariant
            i <= v@.len(),
            w == levels_view(v@),
            forall|a: int, b: int|
                0 <= a < i && 0 <= b < w.len() && a != b ==> (#[trigger] w[a]).0 != (#[trigger] w[b]).0,
        decreases v@.len() - i,
    {
        let mut j: usize = 0;
        while j < v.len()
            invariant
                i < v@.len(),
                j <= v@.len(),
                w == levels_view(v@),
                forall|a: int, b: int|
                    0 <= a < i && 0 <= b < w.len() && a != b ==> (#[trigger] w[a]).0 != (#[trigger] w[b]).0,
                forall|b: int| 0 <= b < j && b != i ==> w[i as int].0 != (#[trigger] w[b]).0,
            decreases v@.len() - j,
        {
            assert(w[i as int].0 == v@[i as int].0@ && w[j as int].0 == v@[j as int].0@);
            if j != i && same_text(v[i].0.as_str(), v[j].0.as_str()) {
                assert(!keys_unique(w, text_key())) by {
                    assert(text_key()(w[i as int]) == text_key()(w[j as int]));
                }
                return false;
            }
            j += 1;
        }
        i += 1;
    }
    true
}

fn eq_ids_distinct(v: &Vec<(u32, StripEq)>) -> (r: bool)
    ensures
        r == keys_unique(eqs_view(v@), id_key()),
{
    let r = ids_distinct(v);
    let ghost w = eqs_view(v@);
    assert(forall|k: int| 0 <= k < v@.len() ==> (#[trigger] w[k]).0 == v@[k].0);
    if r {
        assert forall|a: int, b: int| 0 <= a < w.len() && 0 <= b < w.len() && a != b implies id_key()(
            #[trigger] w[a],
        ) != id_key()(#[trigger] w[b]) by {
            assert(id_key()(v@[a]) != id_key()(v@[b]));
        }
    } else {
        proof {
            let (a, b) = choose|a: int, b: int|
                0 <= a < v@.len() && 0 <= b < v@.len() && a != b && id_key()(#[trigger] v@[a])
                    == id_key()(#[trigger] v@[b]);
            assert(id_key()(w[a]) == id_key()(w[b]));
        }
    }
    r
}

impl MixerSnapshot {
    /// Whether each of the snapshot's lists holds a key at most once (see
    /// [`snapshot_wf`]), as applying it asks.
    pub fn is_well_formed(&self) -> (r: bool)
        ensures
            r == snapshot_wf(self@),
    {
        ids_distinct(&self.fader) && ids_distinct(&self.mute) && ids_distinct(&self.pan) && ids_distinct(
            &self.input_to_master,
        ) && ids_distinct(&self.return_to_master) && texts_distinct(&self.send_levels)
            && eq_ids_distinct(&self.eq)
    }

    /// The snapshot of `cfg` (see [`snapshot_of`]).
    pub fn from_config(cfg: &MixerConfig) -> (snap: Self)
        ensures
            snap@ == snapshot_of(cfg@),
            snapshot_wf(snap@),
    {
        let mut snap = MixerSnapshot::default();
        let ghost c = cfg@;
        let ghost ins = c.input_channels;
        let ghost rets = c.return_channels;
        let mut i: usize = 0;
        proof {
            assert(ins.take(0) =~= Seq::<InputChannelView>::empty());
            assert(ins.take(0).map_values(|x: InputChannelView| input_fader(x)) =~= Seq::<(u32, u32)>::empty());
            assert(ins.take(0).map_values(|x: InputChannelView| input_mute(x)) =~= Seq::<(u32, bool)>::empty());
            assert(ins.take(0).map_values(|x: InputChannelView| input_pan(x)) =~= Seq::<(u32, u32)>::empty());
            assert(ins.take(0).map_values(|x: InputChannelView| input_master(x)) =~= Seq::<(u32, bool)>::empty());
            assert(ins.take(0).filter_map(|x: InputChannelView| input_eq(x)) =~= Seq::<(u32, StripEqView)>::empty());
        }
        while i < cfg.input_channels.len()
            invariant
                c == cfg@,
                ins == c.input_channels,
                i <= ins.len(),
                snap@.fader == stored_all(ins.take(i as int).map_values(|x: InputChannelView| input_fader(x)), id_key()),
                snap@.mute == stored_all(ins.take(i as int).map_values(|x: InputChannelView| input_mute(x)), id_key()),
                snap@.pan == stored_all(ins.take(i as int).map_values(|x: InputChannelView| input_pan(x)), id_key()),
                snap@.input_to_master == stored_all(ins.take(i as int).map_values(|x: InputChannelView| input_master(x)), id_key()),
                snap@.eq == stored_all(ins.take(i as int).filter_map(|x: InputChannelView| input_eq(x)), id_key()),
                snap@.return_to_master == Seq::<(u32, bool)>::empty(),
                snap@.send_levels == Seq::<(Seq<char>, u32)>::empty(),
                snap@.master_fader is None,
                snap@.master_mute is None,
                snap@.master_eq is None,
                snapshot_wf(snap@),
            decreases ins.len() - i,
        {
            let ch = &cfg.input_channels[i];
            let ghost x = ins[i as int];
            proof {
                assert(x == ch@);
                assert(ins.take(i + 1) =~= ins.take(i as int).push(x));
                assert(ins.take(i + 1).map_values(|x: InputChannelView| input_fader(x)) =~= ins.take(i as int).map_values(|x: InputChannelView| input_fader(x)).push(input_fader(x)));
                assert(ins.take(i + 1).map_values(|x: InputChannelView| input_mute(x)) =~= ins.take(i as int).map_values(|x: InputChannelView| input_mute(x)).push(input_mute(x)));
                assert(ins.take(i + 1).map_values(|x: InputChannelView| input_pan(x)) =~= ins.take(i as int).map_values(|x: InputChannelView| input_pan(x)).push(input_pan(x)));
                assert(ins.take(i + 1).map_values(|x: InputChannelView| input_master(x)) =~= ins.take(i as int).map_values(|x: InputChannelView| input_master(x)).push(input_master(x)));
                assert(ins.take(i + 1).drop_last() =~= ins.take(i as int));
                lemma_stored_all_push(ins.take(i as int).map_values(|x: InputChannelView| input_fader(x)), id_key(), input_fader(x));
                lemma_stored_all_push(ins.take(i as int).map_values(|x: InputChannelView| input_mute(x)), id_key(), input_mute(x));
                lemma_stored_all_push(ins.take(i as int).map_values(|x: InputChannelView| input_pan(x)), id_key(), input_pan(x));
                lemma_stored_all_push(ins.take(i as int).map_values(|x: InputChannelView| input_master(x)), id_key(), input_master(x));
            }
            store(&mut snap.input_to_master, ch.id, ch.send_to_master);
            store(&mut snap.pan, ch.id, ch.pan);
            store(&mut snap.fader, ch.id, ch.fader);
            store(&mut snap.mute, ch.id, ch.muted);
            match &ch.eq {
                Some(e) => {
                    proof {
                        lemma_stored_all_push(ins.take(i as int).filter_map(|x: InputChannelView| input_eq(x)), id_key(), (ch.id, e@));
                    }
                    store_eq(&mut snap.eq, ch.id, e);
                },
                None => {},
            }
            i += 1;
        }
        assert(ins.take(ins.len() as int) =~= ins);
        let ghost fa = ins.map_values(|x: InputChannelView| input_fader(x));
        let ghost mu = ins.map_values(|x: InputChannelView| input_mute(x));
        let ghost pa = ins.map_values(|x: InputChannelView| input_pan(x));
        let ghost eqa = ins.filter_map(|x: InputChannelView| input_eq(x));
        let mut j: usize = 0;
        proof {
            assert(rets.take(0) =~= Seq::<ReturnChannelView>::empty());
            assert(fa + rets.take(0).map_values(|x: ReturnChannelView| return_fader(x)) =~= fa);
            assert(mu + rets.take(0).map_values(|x: ReturnChannelView| return_mute(x)) =~= mu);
            assert(pa + rets.take(0).map_values(|x: ReturnChannelView| return_pan(x)) =~= pa);
            assert(rets.take(0).map_values(|x: ReturnChannelView| return_master(x)) =~= Seq::<(u32, bool)>::empty());
            assert(rets.take(0).filter_map(|x: ReturnChannelView| return_eq(x)) =~= Seq::<(u32, StripEqView)>::empty());
            assert(eqa + rets.take(0).filter_map(|x: ReturnChannelView| return_eq(x)) =~= eqa);
        }
        while j < cfg.return_channels.len()
            invariant
                c == cfg@,
                rets == c.return_channels,
                j <= rets.len(),
                fa == c.input_channels.map_values(|x: InputChannelView| input_fader(x)),
                mu == c.input_channels.map_values(|x: InputChannelView| input_mute(x)),
                pa == c.input_channels.map_values(|x: InputChannelView| input_pan(x)),
                eqa == c.input_channels.filter_map(|x: InputChannelView| input_eq(x)),
                snap@.fader == stored_all(fa + rets.take(j as int).map_values(|x: ReturnChannelView| return_fader(x)), id_key()),
                snap@.mute == stored_all(mu + rets.take(j as int).map_values(|x: ReturnChannelView| return_mute(x)), id_key()),
                snap@.pan == stored_all(pa + rets.take(j as int).map_values(|x: ReturnChannelView| return_pan(x)), id_key()),
                snap@.input_to_master == stored_all(c.input_channels.map_values(|x: InputChannelView| input_master(x)), id_key()),
                snap@.return_to_master == stored_all(rets.take(j as int).map_values(|x: ReturnChannelView| return_master(x)), id_key()),
                snap@.eq == stored_all(eqa + rets.take(j as int).filter_map(|x: ReturnChannelView| return_eq(x)), id_key()),
                snap@.send_levels == Seq::<(Seq<char>, u32)>::empty(),
                snap@.master_fader is None,
                snap@.master_mute is None,
                snap@.master_eq is None,
                snapshot_wf(snap@),
            decreases rets.len() - j,
        {
            let r = &cfg.return_channels[j];
            let ghost x = rets[j as int];
            proof {
                assert(x == r@);
                assert(rets.take(j + 1) =~= rets.take(j as int).push(x));
                assert(fa + rets.take(j + 1).map_values(|x: ReturnChannelView| return_fader(x)) =~= (fa + rets.take(j as int).map_values(|x: ReturnChannelView| return_fader(x))).push(return_fader(x)));
                assert(mu + rets.take(j + 1).map_values(|x: ReturnChannelView| return_mute(x)) =~= (mu + rets.take(j as int).map_values(|x: ReturnChannelView| return_mute(x))).push(return_mute(x)));
                assert(pa + rets.take(j + 1).map_values(|x: ReturnChannelView| return_pan(x)) =~= (pa + rets.take(j as int).map_values(|x: ReturnChannelView| return_pan(x))).push(return_pan(x)));
                assert(rets.take(j + 1).map_values(|x: ReturnChannelView| return_master(x)) =~= rets.take(j as int).map_values(|x: ReturnChannelView| return_master(x)).push(return_master(x)));
                assert(rets.take(j + 1).drop_last() =~= rets.take(j as int));
                lemma_stored_all_push(fa + rets.take(j as int).map_values(|x: ReturnChannelView| return_fader(x)), id_key(), return_fader(x));
                lemma_stored_all_push(mu + rets.take(j as int).map_values(|x: ReturnChannelView| return_mute(x)), id_key(), return_mute(x));
                lemma_stored_all_push(pa + rets.take(j as int).map_values(|x: ReturnChannelView| return_pan(x)), id_key(), return_pan(x));
                lemma_stored_all_push(rets.take(j as int).map_values(|x: ReturnChannelView| return_master(x)), id_key(), return_master(x));
            }
            store(&mut snap.return_to_master, r.id, r.send_to_master);
            store(&mut snap.pan, r.id, r.pan);
            store(&mut snap.fader, r.id, r.fader);
            store(&mut snap.mute, r.id, r.muted);
            match &r.eq {
                Some(e) => {
                    proof {
                        assert(eqa + rets.take(j + 1).filter_map(|x: ReturnChannelView| return_eq(x)) =~= (eqa + rets.take(j as int).filter_map(|x: ReturnChannelView| return_eq(x))).push((r.id, e@)));
                        lemma_stored_all_push(eqa + rets.take(j as int).filter_map(|x: ReturnChannelView| return_eq(x)), id_key(), (r.id, e@));
                    }
                    store_eq(&mut snap.eq, r.id, e);
                },
                None => {
                    proof {
                        assert(eqa + rets.take(j + 1).filter_map(|x: ReturnChannelView| return_eq(x)) =~= eqa + rets.take(j as int).filter_map(|x: ReturnChannelView| return_eq(x)));
                    }
                },
            }
            j += 1;
        }
        assert(rets.take(rets.len() as int) =~= rets);
        let ghost sends = c.sends;
        let mut k: usize = 0;
        proof {
            assert(sends.take(0).map_values(|s: SendRoute| send_level_entry(s)) =~= Seq::<(Seq<char>, u32)>::empty());
        }
        while k < cfg.sends.len()
            invariant
                c == cfg@,
                sends == c.sends,
                k <= sends.len(),
                snap@.fader == snapshot_of(c).fader,
                snap@.mute == snapshot_of(c).mute,
                snap@.pan == snapshot_of(c).pan,
                snap@.input_to_master == snapshot_of(c).input_to_master,
                snap@.return_to_master == snapshot_of(c).return_to_master,
                snap@.eq == snapshot_of(c).eq,
                snap@.send_levels == stored_all(sends.take(k as int).map_values(|s: SendRoute| send_level_entry(s)), text_key()),
                snap@.master_fader is None,
                snap@.master_mute is None,
                snap@.master_eq is None,
                snapshot_wf(snap@),
            decreases sends.len() - k,
        {
            let sr = cfg.sends[k];
            proof {
                assert(sends.take(k + 1).map_values(|s: SendRoute| send_level_entry(s)) =~= sends.take(k as int).map_values(|s: SendRoute| send_level_entry(s)).push(send_level_entry(sr)));
                lemma_stored_all_push(sends.take(k as int).map_values(|s: SendRoute| send_level_entry(s)), text_key(), send_level_entry(sr));
            }
            let key = send_key(sr.input_channel_id, sr.return_channel_id);
            store_text(&mut snap.send_levels, key, sr.level);
            k += 1;
        }
        assert(sends.take(sends.len() as int) =~= sends);
        snap.master_fader = Some(cfg.master_fader);
        snap.master_mute = Some(cfg.master_muted);
        snap.master_eq = crate::mixer::config::copy_eq(&cfg.master_eq);
        snap
    }

    /// Applies the snapshot to `cfg` (see [`snapshot_applied`]): only values
    /// of existing strips, sends and the master change.
    pub fn apply_to(&self, cfg: &mut MixerConfig)
        requires
            snapshot_wf(self@),
        ensures
            final(cfg)@ == snapshot_applied(old(cfg)@, self@),
    {
        let ghost sv = self@;
        let ghost c0 = cfg@;
        let mut i: usize = 0;
        assert(cfg@.input_channels =~= Seq::new(
            c0.input_channels.len(),
            |k: int|
                if k < 0 {
                    input_applied(c0.input_channels[k], sv)
                } else {
                    c0.input_channels[k]
                },
        ));
        while i < cfg.input_channels.len()
            invariant
                sv == self@,
                snapshot_wf(sv),
                i <= c0.input_channels.len(),
                cfg@ == (MixerConfigView {
                    input_channels: Seq::new(
                        c0.input_channels.len(),
                        |k: int|
                            if k < i {
                                input_applied(c0.input_channels[k], sv)
                            } else {
                                c0.input_channels[k]
                            },
                    ),
                    ..c0
                }),
            decreases c0.input_channels.len() - i,
        {
            assert(cfg@.input_channels.len() == cfg.input_channels@.len());
            assert(cfg@.input_channels[i as int] == cfg.input_channels@[i as int]@);
            let ghost prev = cfg@.input_channels;
            let mut ch = cfg.input_channels[i].clone();
            let id = ch.id;
            match fetch(&self.input_to_master, id) {
                Some(v) => ch.send_to_master = v,
                None => {},
            }
            match fetch(&self.pan, id) {
                Some(v) => ch.pan = v,
                None => {},
            }
            match fetch(&self.fader, id) {
                Some(v) => ch.fader = v,
                None => {},
            }
            match fetch(&self.mute, id) {
                Some(v) => ch.muted = v,
                None => {},
            }
            match fetch_eq(&self.eq, id) {
                Some(e) => ch.eq = Some(e.clone()),
                None => {},
            }
            proof {
                assert(ch@ == input_applied(c0.input_channels[i as int], sv));
            }
            cfg.input_channels.set(i, ch);
            proof {
                assert(cfg@.input_channels =~= prev.update(i as int, input_applied(c0.input_channels[i as int], sv)));
                assert(cfg@.input_channels =~= Seq::new(
                    c0.input_channels.len(),
                    |k: int|
                        if k < i + 1 {
                            input_applied(c0.input_channels[k], sv)
                        } else {
                            c0.input_channels[k]
                        },
                ));
            }
            i += 1;
        }
        let mut j: usize = 0;
        assert(cfg@.input_channels =~= c0.input_channels.map_values(
            |x: InputChannelView| input_applied(x, sv),
        ));
        assert(cfg@.return_channels =~= Seq::new(
            c0.return_channels.len(),
            |k: int|
                if k < 0 {
                    return_applied(c0.return_channels[k], sv)
                } else {
                    c0.return_channels[k]
                },
        ));
        while j < cfg.return_channels.len()
            invariant
                sv == self@,
                snapshot_wf(sv),
                j <= c0.return_channels.len(),
                cfg@ == (MixerConfigView {
                    input_channels: c0.input_channels.map_values(
                        |x: InputChannelView| input_applied(x, sv),
                    ),
                    return_channels: Seq::new(
                        c0.return_channels.len(),
                        |k: int|
                            if k < j {
                                return_applied(c0.return_channels[k], sv)
                            } else {
                                c0.return_channels[k]
                            },
                    ),
                    ..c0
                }),
            decreases c0.return_channels.len() - j,
        {
            assert(cfg@.return_channels.len() == cfg.return_channels@.len());
            assert(cfg@.return_channels[j as int] == cfg.return_channels@[j as int]@);
            let ghost prev = cfg@.return_channels;
            let mut r = cfg.return_channels[j].clone();
            let id = r.id;
            match fetch(&self.return_to_master, id) {
                Some(v) => r.send_to_master = v,
                None => {},
            }
            match fetch(&self.pan, id) {
                Some(v) => r.pan = v,
                None => {},
            }
            match fetch(&self.fader, id) {
                Some(v) => r.fader = v,
                None => {},
            }
            match fetch(&self.mute, id) {
                Some(v) => r.muted = v,
                None => {},
            }
            match fetch_eq(&self.eq, id) {
                Some(e) => r.eq = Some(e.clone()),
                None => {},
            }
            proof {
                assert(r@ == return_applied(c0.return_channels[j as int], sv));
            }
            cfg.return_channels.set(j, r);
            proof {
                assert(cfg@.return_channels =~= prev.update(j as int, return_applied(c0.return_channels[j as int], sv)));
                assert(cfg@.return_channels =~= Seq::new(
                    c0.return_channels.len(),
                    |k: int|
                        if k < j + 1 {
                            return_applied(c0.return_channels[k], sv)
                        } else {
                            c0.return_channels[k]
                        },
                ));
            }
            j += 1;
        }
        let mut k: usize = 0;
        assert(cfg@.return_channels =~= c0.return_channels.map_values(
            |x: ReturnChannelView| return_applied(x, sv),
        ));
        assert(cfg@.sends =~= Seq::new(
            c0.sends.len(),
            |m: int|
                if m < 0 {
                    send_applied(c0.sends[m], sv)
                } else {
                    c0.sends[m]
                },
        ));
        while k < cfg.sends.len()
            invariant
                sv == self@,
                snapshot_wf(sv),
                k <= c0.sends.len(),
                cfg@ == (MixerConfigView {
                    input_channels: c0.input_channels.map_values(
                        |x: InputChannelView| input_applied(x, sv),
                    ),
                    return_channels: c0.return_channels.map_values(
                        |x: ReturnChannelView| return_applied(x, sv),
                    ),
                    sends: Seq::new(
                        c0.sends.len(),
                        |m: int|
                            if m < k {
                                send_applied(c0.sends[m], sv)
                            } else {
                                c0.sends[m]
                            },
                    ),
                    ..c0
                }),
            decreases c0.sends.len() - k,
        {
            let sr = cfg.sends[k];
            let key = send_key(sr.input_channel_id, sr.return_channel_id);
            match fetch_text(&self.send_levels, key.as_str()) {
                Some(lvl) => {
                    cfg.sends.set(k, SendRoute { level: lvl, ..sr });
                },
                None => {},
            }
            proof {
                assert(cfg@.sends =~= Seq::new(
                    c0.sends.len(),
                    |m: int|
                        if m < k + 1 {
                            send_applied(c0.sends[m], sv)
                        } else {
                            c0.sends[m]
                        },
                ));
            }
            k += 1;
        }
        match self.master_fader {
            Some(f) => cfg.master_fader = f,
            None => {},
        }
        match self.master_mute {
            Some(m) => cfg.master_muted = m,
            None => {},
        }
        match &self.master_eq {
            Some(e) => cfg.master_eq = Some(e.clone()),
            None => {},
        }
        proof {
            assert(cfg@.sends =~= c0.sends.map_values(|x: SendRoute| send_applied(x, sv)));
        }
    }
}

proof fn lemma_strip_entries_unique<V>(c: MixerConfigView, e: Seq<(u32, V)>)
    requires
        mixer_wf(c),
        e.len() == c.input_channels.len() + c.return_channels.len(),
        forall|k: int| 0 <= k < c.input_channels.len() ==> #[trigger] e[k].0 == c.input_channels[k].id,
        forall|k: int|
            c.input_channels.len() <= k < e.len() ==> #[trigger] e[k].0 == c.return_channels[k
                - c.input_channels.len()].id,
    ensures
        keys_unique(e, id_key()),
{
    let n = c.input_channels.len() as int;
    assert forall|a: int, b: int| 0 <= a < e.len() && 0 <= b < e.len() && a != b implies id_key()(
        #[trigger] e[a],
    ) != id_key()(#[trigger] e[b]) by {
        if a < n && b < n {
            assert(c.input_channels[a].id != c.input_channels[b].id);
        } else if a < n {
            assert(c.input_channels[a].id != c.return_channels[b - n].id);
        } else if b < n {
            assert(c.input_channels[b].id != c.return_channels[a - n].id);
        } else {
            assert(c.return_channels[a - n].id != c.return_channels[b - n].id);
        }
    }
}

proof fn lemma_lookup_entry<V>(e: Seq<(u32, V)>, i: int)
    requires
        keys_unique(e, id_key()),
        0 <= i < e.len(),
    ensures
        lookup(stored_all(e, id_key()), e[i].0) == Some(e[i].1),
{
    lemma_stored_all_unique(e, id_key());
    assert(key_at(e, id_key(), e[i].0, i));
    lemma_unique_index(e, id_key(), e[i].0, i);
}

proof fn lemma_filter_map_source<A, B>(s: Seq<A>, f: spec_fn(A) -> Option<B>, a: int)
    requires
        0 <= a < s.filter_map(f).len(),
    ensures
        exists|m: int| 0 <= m < s.len() && f(s[m]) == Some(s.filter_map(f)[a]),
{
    let y = s.filter_map(f)[a];
    assert(s.filter_map(f).contains(y));
    s.lemma_filter_map_contains(f, y);
    let t = choose|t: A| #[trigger] s.contains(t) && f(t) == Some(y);
    let m = choose|m: int| 0 <= m < s.len() && s[m] == t;
}

proof fn lemma_filter_map_has<A, B>(s: Seq<A>, f: spec_fn(A) -> Option<B>, m: int)
    requires
        0 <= m < s.len(),
        f(s[m]) is Some,
    ensures
        s.filter_map(f).contains(f(s[m]).unwrap()),
    decreases s.len(),
{
    let rest = s.drop_last();
    if m == s.len() - 1 {
        assert(s.filter_map(f) == rest.filter_map(f) + seq![f(s[m]).unwrap()]);
        assert(s.filter_map(f)[rest.filter_map(f).len() as int] == f(s[m]).unwrap());
    } else {
        assert(rest[m] == s[m]);
        lemma_filter_map_has(rest, f, m);
        let k = choose|k: int| 0 <= k < rest.filter_map(f).len() && rest.filter_map(f)[k] == f(
            s[m],
        ).unwrap();
        match f(s.last()) {
            Some(b) => {
                assert(s.filter_map(f) == rest.filter_map(f) + seq![b]);
                assert(s.filter_map(f)[k] == rest.filter_map(f)[k]);
            },
            None => {
                assert(s.filter_map(f) == rest.filter_map(f));
            },
        }
    }
}

proof fn lemma_filter_map_keys_unique<A, B>(s: Seq<A>, f: spec_fn(A) -> Option<(u32, B)>)
    requires
        forall|a: int, b: int|
            0 <= a < s.len() && 0 <= b < s.len() && a != b && (#[trigger] f(s[a])) is Some && (
            #[trigger] f(s[b])) is Some ==> f(s[a]).unwrap().0 != f(s[b]).unwrap().0,
    ensures
        keys_unique(s.filter_map(f), id_key()),
    decreases s.len(),
{
    if s.len() > 0 {
        let rest = s.drop_last();
        assert forall|a: int, b: int|
            0 <= a < rest.len() && 0 <= b < rest.len() && a != b && (#[trigger] f(rest[a])) is Some
                && (#[trigger] f(rest[b])) is Some implies f(rest[a]).unwrap().0 != f(
            rest[b],
        ).unwrap().0 by {
            assert(rest[a] == s[a] && rest[b] == s[b]);
        }
        lemma_filter_map_keys_unique(rest, f);
        match f(s.last()) {
            Some(y) => {
                let fr = rest.filter_map(f);
                let g = fr + seq![y];
                assert(s.filter_map(f) == g);
                assert forall|a: int, b: int|
                    0 <= a < g.len() && 0 <= b < g.len() && a != b implies id_key()(#[trigger] g[a])
                    != id_key()(#[trigger] g[b]) by {
                    if a < fr.len() && b < fr.len() {
                        assert(g[a] == fr[a] && g[b] == fr[b]);
                    } else if a < fr.len() {
                        lemma_filter_map_source(rest, f, a);
                        let m = choose|m: int| 0 <= m < rest.len() && f(rest[m]) == Some(fr[a]);
                        assert(rest[m] == s[m]);
                        assert(f(s[m]) is Some && f(s[s.len() - 1]) is Some);
                        assert(g[a] == fr[a]);
                    } else {
                        lemma_filter_map_source(rest, f, b);
                        let m = choose|m: int| 0 <= m < rest.len() && f(rest[m]) == Some(fr[b]);
                        assert(rest[m] == s[m]);
                        assert(f(s[m]) is Some && f(s[s.len() - 1]) is Some);
                        assert(g[b] == fr[b]);
                    }
                }
            },
            None => {
                assert(s.filter_map(f) == rest.filter_map(f));
            },
        }
    }
}

proof fn lemma_digits_no_colon(n: nat)
    ensures
        forall|i: int| 0 <= i < dec(n).len() ==> #[trigger] dec(n)[i] != ':',
{
    lemma_dec_digits(n);
    assert forall|i: int| 0 <= i < dec(n).len() implies #[trigger] dec(n)[i] != ':' by {
        assert(crate::text::is_digit(dec(n)[i]));
    }
}

/// Distinct sends have distinct level keys.
pub proof fn lemma_send_key_injective(a: u32, b: u32, c: u32, d: u32)
    requires
        send_key_of(a, b) == send_key_of(c, d),
    ensures
        a == c && b == d,
{
    let x = dec(a as nat);
    let y = dec(c as nat);
    let k1 = send_key_of(a, b);
    reveal_strlit(":");
    assert(":"@.len() == 1 && ":"@[0] == ':');
    lemma_digits_no_colon(a as nat);
    lemma_digits_no_colon(c as nat);
    lemma_digits_no_colon(b as nat);
    lemma_digits_no_colon(d as nat);
    assert(k1[x.len() as int] == ':');
    assert(k1[y.len() as int] == ':');
    if x.len() < y.len() {
        assert(k1[x.len() as int] == y[x.len() as int]);
    }
    if y.len() < x.len() {
        assert(k1[y.len() as int] == x[y.len() as int]);
    }
    assert(x.len() == y.len());
    assert(x =~= k1.subrange(0, x.len() as int));
    assert(y =~= k1.subrange(0, y.len() as int));
    lemma_dec_injective(a as nat, c as nat);
    assert(dec(b as nat) =~= k1.subrange(x.len() as int + 1, k1.len() as int));
    assert(dec(d as nat) =~= k1.subrange(y.len() as int + 1, k1.len() as int));
    lemma_dec_injective(b as nat, d as nat);
}

/// What the snapshot of a well-formed configuration holds under each
/// strip's id and each send's key: that strip's and that send's values.
proof fn lemma_snapshot_lookups(c: MixerConfigView)
    requires
        mixer_wf(c),
    ensures
        forall|i: int|
            0 <= i < c.input_channels.len() ==> {
                let x = #[trigger] c.input_channels[i];
                let s = snapshot_of(c);
                &&& lookup(s.fader, x.id) == Some(x.fader)
                &&& lookup(s.mute, x.id) == Some(x.muted)
                &&& lookup(s.pan, x.id) == Some(x.pan)
                &&& lookup(s.input_to_master, x.id) == Some(x.send_to_master)
                &&& lookup(s.eq, x.id) == x.eq
            },
        forall|j: int|
            0 <= j < c.return_channels.len() ==> {
                let x = #[trigger] c.return_channels[j];
                let s = snapshot_of(c);
                &&& lookup(s.fader, x.id) == Some(x.fader)
                &&& lookup(s.mute, x.id) == Some(x.muted)
                &&& lookup(s.pan, x.id) == Some(x.pan)
                &&& lookup(s.return_to_master, x.id) == Some(x.send_to_master)
                &&& lookup(s.eq, x.id) == x.eq
            },
        forall|k: int|
            0 <= k < c.sends.len() ==> lookup_text(
                snapshot_of(c).send_levels,
                send_key_of((#[trigger] c.sends[k]).input_channel_id, c.sends[k].return_channel_id),
            ) == Some(c.sends[k].level),
{
    let s = snapshot_of(c);
    let ins = c.input_channels;
    let rets = c.return_channels;
    let n = ins.len() as int;
    let fe = ins.map_values(|x: InputChannelView| input_fader(x)) + rets.map_values(
        |x: ReturnChannelView| return_fader(x),
    );
    let me = ins.map_values(|x: InputChannelView| input_mute(x)) + rets.map_values(
        |x: ReturnChannelView| return_mute(x),
    );
    let pe = ins.map_values(|x: InputChannelView| input_pan(x)) + rets.map_values(
        |x: ReturnChannelView| return_pan(x),
    );
    let ie = ins.map_values(|x: InputChannelView| input_master(x));
    let re = rets.map_values(|x: ReturnChannelView| return_master(x));
    let fi = ins.filter_map(|x: InputChannelView| input_eq(x));
    let fr = rets.filter_map(|x: ReturnChannelView| return_eq(x));
    let ee = fi + fr;
    let se = c.sends.map_values(|x: SendRoute| send_level_entry(x));
    lemma_strip_entries_unique(c, fe);
    lemma_strip_entries_unique(c, me);
    lemma_strip_entries_unique(c, pe);
    assert(keys_unique(ie, id_key())) by {
        assert forall|a: int, b: int|
            0 <= a < ie.len() && 0 <= b < ie.len() && a != b implies id_key()(#[trigger] ie[a])
            != id_key()(#[trigger] ie[b]) by {
            assert(ins[a].id != ins[b].id);
        }
    }
    assert(keys_unique(re, id_key())) by {
        assert forall|a: int, b: int|
            0 <= a < re.len() && 0 <= b < re.len() && a != b implies id_key()(#[trigger] re[a])
            != id_key()(#[trigger] re[b]) by {
            assert(rets[a].id != rets[b].id);
        }
    }
    assert(keys_unique(se, text_key())) by {
        assert forall|a: int, b: int|
            0 <= a < se.len() && 0 <= b < se.len() && a != b implies text_key()(#[trigger] se[a])
            != text_key()(#[trigger] se[b]) by {
            if se[a].0 == se[b].0 {
                lemma_send_key_injective(
                    c.sends[a].input_channel_id,
                    c.sends[a].return_channel_id,
                    c.sends[b].input_channel_id,
                    c.sends[b].return_channel_id,
                );
                assert(!send_is(c.sends[a], c.sends[b].input_channel_id, c.sends[b].return_channel_id));
            }
        }
    }
    lemma_filter_map_keys_unique(ins, |x: InputChannelView| input_eq(x));
    lemma_filter_map_keys_unique(rets, |x: ReturnChannelView| return_eq(x));
    assert(keys_unique(ee, id_key())) by {
        assert forall|a: int, b: int|
            0 <= a < ee.len() && 0 <= b < ee.len() && a != b implies id_key()(#[trigger] ee[a])
            != id_key()(#[trigger] ee[b]) by {
            if a < fi.len() && b < fi.len() {
                assert(ee[a] == fi[a] && ee[b] == fi[b]);
            } else if a >= fi.len() && b >= fi.len() {
                assert(ee[a] == fr[a - fi.len()] && ee[b] == fr[b - fi.len()]);
            } else {
                let (p, q) = if a < fi.len() { (a, b - fi.len()) } else { (b, a - fi.len()) };
                lemma_filter_map_source(ins, |x: InputChannelView| input_eq(x), p);
                lemma_filter_map_source(rets, |x: ReturnChannelView| return_eq(x), q);
                let m1 = choose|m: int| 0 <= m < ins.len() && input_eq(ins[m]) == Some(fi[p]);
                let m2 = choose|m: int| 0 <= m < rets.len() && return_eq(rets[m]) == Some(fr[q]);
                assert(ins[m1].id != rets[m2].id);
            }
        }
    }
    lemma_stored_all_unique(ee, id_key());
    lemma_stored_all_unique(se, text_key());
    assert forall|i: int| 0 <= i < n implies {
        let x = #[trigger] ins[i];
        &&& lookup(s.fader, x.id) == Some(x.fader)
        &&& lookup(s.mute, x.id) == Some(x.muted)
        &&& lookup(s.pan, x.id) == Some(x.pan)
        &&& lookup(s.input_to_master, x.id) == Some(x.send_to_master)
        &&& lookup(s.eq, x.id) == x.eq
    } by {
        let x = ins[i];
        lemma_lookup_entry(fe, i);
        lemma_lookup_entry(me, i);
        lemma_lookup_entry(pe, i);
        lemma_lookup_entry(ie, i);
        match x.eq {
            Some(e) => {
                lemma_filter_map_has(ins, |x: InputChannelView| input_eq(x), i);
                let k = choose|k: int| 0 <= k < fi.len() && fi[k] == (x.id, e);
                assert(ee[k] == fi[k]);
                assert(key_at(ee, id_key(), x.id, k));
                lemma_unique_index(ee, id_key(), x.id, k);
            },
            None => {
                if has_key(ee, id_key(), x.id) {
                    let k = index_of_key(ee, id_key(), x.id);
                    assert(key_at(ee, id_key(), x.id, k));
                    if k < fi.len() {
                        lemma_filter_map_source(ins, |x: InputChannelView| input_eq(x), k);
                        let m = choose|m: int| 0 <= m < ins.len() && input_eq(ins[m]) == Some(fi[k]);
                        assert(ee[k] == fi[k]);
                        if m != i {
                            assert(ins[m].id != ins[i].id);
                        }
                    } else {
                        lemma_filter_map_source(rets, |x: ReturnChannelView| return_eq(x), k - fi.len());
                        let m = choose|m: int|
                            0 <= m < rets.len() && return_eq(rets[m]) == Some(fr[k - fi.len()]);
                        assert(ee[k] == fr[k - fi.len()]);
                        assert(ins[i].id != rets[m].id);
                    }
                }
            },
        }
    }
    assert forall|j: int| 0 <= j < rets.len() implies {
        let x = #[trigger] rets[j];
        &&& lookup(s.fader, x.id) == Some(x.fader)
        &&& lookup(s.mute, x.id) == Some(x.muted)
        &&& lookup(s.pan, x.id) == Some(x.pan)
        &&& lookup(s.return_to_master, x.id) == Some(x.send_to_master)
        &&& lookup(s.eq, x.id) == x.eq
    } by {
        let x = rets[j];
        lemma_lookup_entry(fe, n + j);
        lemma_lookup_entry(me, n + j);
        lemma_lookup_entry(pe, n + j);
        lemma_lookup_entry(re, j);
        match x.eq {
            Some(e) => {
                lemma_filter_map_has(rets, |x: ReturnChannelView| return_eq(x), j);
                let k = choose|k: int| 0 <= k < fr.len() && fr[k] == (x.id, e);
                assert(ee[fi.len() + k] == fr[k]);
                assert(key_at(ee, id_key(), x.id, fi.len() + k));
                lemma_unique_index(ee, id_key(), x.id, fi.len() + k);
            },
            None => {
                if has_key(ee, id_key(), x.id) {
                    let k = index_of_key(ee, id_key(), x.id);
                    assert(key_at(ee, id_key(), x.id, k));
                    if k < fi.len() {
                        lemma_filter_map_source(ins, |x: InputChannelView| input_eq(x), k);
                        let m = choose|m: int| 0 <= m < ins.len() && input_eq(ins[m]) == Some(fi[k]);
                        assert(ee[k] == fi[k]);
                        assert(ins[m].id != rets[j].id);
                    } else {
                        lemma_filter_map_source(rets, |x: ReturnChannelView| return_eq(x), k - fi.len());
                        let m = choose|m: int|
                            0 <= m < rets.len() && return_eq(rets[m]) == Some(fr[k - fi.len()]);
                        assert(ee[k] == fr[k - fi.len()]);
                        if m != j {
                            assert(rets[m].id != rets[j].id);
                        }
                    }
                }
            },
        }
    }
    assert forall|k: int| 0 <= k < c.sends.len() implies lookup_text(
        s.send_levels,
        send_key_of((#[trigger] c.sends[k]).input_channel_id, c.sends[k].return_channel_id),
    ) == Some(c.sends[k].level) by {
        assert(key_at(se, text_key(), se[k].0, k));
        lemma_unique_index(se, text_key(), se[k].0, k);
    }
}


/// Taking a snapshot of a configuration and applying it to that same
/// configuration leaves the configuration as it was, when strip ids are
/// distinct (inputs and returns together) and no two sends join the same
/// pair of strips.
pub proof fn lemma_snapshot_roundtrip(c: MixerConfigView)
    requires
        mixer_wf(c),
    ensures
        snapshot_applied(c, snapshot_of(c)) == c,
{
    let s = snapshot_of(c);
    lemma_snapshot_lookups(c);
    assert forall|i: int| 0 <= i < c.input_channels.len() implies #[trigger] input_applied(
        c.input_channels[i],
        s,
    ) == c.input_channels[i] by {
        let x = c.input_channels[i];
        assert(lookup(s.eq, x.id) == x.eq);
    }
    assert forall|j: int| 0 <= j < c.return_channels.len() implies #[trigger] return_applied(
        c.return_channels[j],
        s,
    ) == c.return_channels[j] by {
        let x = c.return_channels[j];
        assert(lookup(s.eq, x.id) == x.eq);
    }
    assert forall|k: int| 0 <= k < c.sends.len() implies #[trigger] send_applied(c.sends[k], s)
        == c.sends[k] by {}
    assert(snapshot_applied(c, s).input_channels =~= c.input_channels);
    assert(snapshot_applied(c, s).return_channels =~= c.return_channels);
    assert(snapshot_applied(c, s).sends =~= c.sends);
}

/// A snapshot taken of one configuration and applied to another carries
/// the first one's values across: every input strip, return bus and send of
/// the second that shares its id (or, for a send, its pair of strips) with
/// one of the first takes that one's fader, pan, mute, master toggle and
/// level, and its EQ where that one has an EQ; the master fader and mute
/// are the first's, and its master EQ where it has one. The first must be
/// well-formed; what stays of the second is in
/// [`lemma_snapshot_keeps_structure`].
pub proof fn lemma_snapshot_carries_values(a: MixerConfigView, b: MixerConfigView)
    requires
        mixer_wf(a),
    ensures
        ({
            let r = snapshot_applied(b, snapshot_of(a));
            &&& forall|i: int, k: int|
                0 <= i < b.input_channels.len() && 0 <= k < a.input_channels.len()
                    && b.input_channels[i].id == a.input_channels[k].id ==> {
                    let x = #[trigger] r.input_channels[i];
                    let y = #[trigger] a.input_channels[k];
                    &&& x.fader == y.fader && x.pan == y.pan && x.muted == y.muted
                    &&& x.send_to_master == y.send_to_master
                    &&& x.eq == (if y.eq is Some {
                        y.eq
                    } else {
                        b.input_channels[i].eq
                    })
                }
            &&& forall|i: int, k: int|
                0 <= i < b.return_channels.len() && 0 <= k < a.return_channels.len()
                    && b.return_channels[i].id == a.return_channels[k].id ==> {
                    let x = #[trigger] r.return_channels[i];
                    let y = #[trigger] a.return_channels[k];
                    &&& x.fader == y.fader && x.pan == y.pan && x.muted == y.muted
                    &&& x.send_to_master == y.send_to_master
                    &&& x.eq == (if y.eq is Some {
                        y.eq
                    } else {
                        b.return_channels[i].eq
                    })
                }
            &&& forall|i: int, k: int|
                0 <= i < b.sends.len() && 0 <= k < a.sends.len() && b.sends[i].input_channel_id
                    == a.sends[k].input_channel_id && b.sends[i].return_channel_id
                    == a.sends[k].return_channel_id ==> (#[trigger] r.sends[i]).level
                    == (#[trigger] a.sends[k]).level
            &&& r.master_fader == a.master_fader
            &&& r.master_muted == a.master_muted
            &&& r.master_eq == (if a.master_eq is Some {
                a.master_eq
            } else {
                b.master_eq
            })
        }),
{
    lemma_snapshot_lookups(a);
}

/// A snapshot carries levels and toggles, never structure: applying one
/// keeps every strip, bus and send in place with its id, names, sink, order
/// and routing, keeps the output and the id counter, and so keeps a
/// well-formed configuration well-formed.
pub proof fn lemma_snapshot_keeps_structure(c: MixerConfigView, s: MixerSnapshotView)
    ensures
        snapshot_applied(c, s).next_id == c.next_id,
        snapshot_applied(c, s).master_sink == c.master_sink,
        snapshot_applied(c, s).midi_channels == c.midi_channels,
        snapshot_applied(c, s).global_scale == c.global_scale,
        snapshot_applied(c, s).input_channels.len() == c.input_channels.len(),
        snapshot_applied(c, s).return_channels.len() == c.return_channels.len(),
        snapshot_applied(c, s).sends.len() == c.sends.len(),
        forall|i: int|
            0 <= i < c.input_channels.len() ==> {
                let a = #[trigger] snapshot_applied(c, s).input_channels[i];
                let b = c.input_channels[i];
                &&& a.id == b.id && a.name == b.name && a.sink_name == b.sink_name && a.order == b.order
                &&& a.color == b.color && a.source_name == b.source_name && a.mono == b.mono
                &&& a.app_match_rules == b.app_match_rules && a.is_default == b.is_default
                &&& a.is_soundboard == b.is_soundboard
            },
        forall|i: int|
            0 <= i < c.return_channels.len() ==> {
                let a = #[trigger] snapshot_applied(c, s).return_channels[i];
                let b = c.return_channels[i];
                a.id == b.id && a.name == b.name && a.sink_name == b.sink_name && a.order == b.order
                    && a.color == b.color
            },
        forall|i: int|
            0 <= i < c.sends.len() ==> (#[trigger] snapshot_applied(c, s).sends[i]).input_channel_id
                == c.sends[i].input_channel_id && snapshot_applied(c, s).sends[i].return_channel_id
                == c.sends[i].return_channel_id,
        mixer_wf(c) ==> mixer_wf(snapshot_applied(c, s)),
{
    let d = snapshot_applied(c, s);
    if mixer_wf(c) {
        assert forall|i: int, j: int|
            0 <= i < d.input_channels.len() && 0 <= j < d.input_channels.len() && i != j
                implies #[trigger] d.input_channels[i].id != #[trigger] d.input_channels[j].id by {
            assert(c.input_channels[i].id != c.input_channels[j].id);
        }
        assert forall|i: int, j: int|
            0 <= i < d.return_channels.len() && 0 <= j < d.return_channels.len() && i != j
                implies #[trigger] d.return_channels[i].id != #[trigger] d.return_channels[j].id by {
            assert(c.return_channels[i].id != c.return_channels[j].id);
        }
        assert forall|i: int, j: int|
            0 <= i < d.input_channels.len() && 0 <= j < d.return_channels.len()
                implies #[trigger] d.input_channels[i].id != #[trigger] d.return_channels[j].id by {
            assert(c.input_channels[i].id != c.return_channels[j].id);
        }
        assert forall|i: int, j: int| 0 <= i < d.sends.len() && 0 <= j < d.sends.len() && i != j implies !send_is(
            #[trigger] d.sends[i],
            #[trigger] d.sends[j].input_channel_id,
            d.sends[j].return_channel_id,
        ) by {
            assert(!send_is(c.sends[i], c.sends[j].input_channel_id, c.sends[j].return_channel_id));
        }
    }
}

} // verus!

//! Mixer configuration: input strips, return buses, MIDI strips, sends and
//! the master bus.
//!
//! Levels (`pan`, `fader`, send `level`, `global_scale`) are the bit patterns
//! of `f32` values; the library stores and copies them but does no floating
//! point arithmetic on them.
use vstd::prelude::*;

use crate::audio::eq::EqBand;
use crate::audio::graph::copy_opt;
use crate::seqs::{find_first, first_where, keys_unique, lemma_first_where, retain_where};
use crate::soundboard::SOUNDBOARD_SINK_NAME;
use crate::text::{dec, dec_u32, join3, join_path, path_join, same_text, text_copy};

verus! {

broadcast use vstd::seq_lib::group_seq_properties;

/// Bit pattern of `1.0f32` (unity gain).
pub const UNITY: u32 = 0x3f80_0000;

/// Bit pattern of `0.0f32` (centre pan).
pub const CENTRE: u32 = 0;

pub fn default_true() -> (r: bool)
    ensures
        r,
{
    true
}

pub fn default_scale() -> (r: u32)
    ensures
        r == UNITY,
{
    UNITY
}

pub fn default_send_level() -> (r: u32)
    ensures
        r == UNITY,
{
    UNITY
}

pub fn default_pan() -> (r: u32)
    ensures
        r == CENTRE,
{
    CENTRE
}

pub fn default_fader() -> (r: u32)
    ensures
        r == UNITY,
{
    UNITY
}

pub open spec fn opt_view(o: Option<String>) -> Option<Seq<char>> {
    match o {
        Some(s) => Some(s@),
        None => None,
    }
}

pub open spec fn texts_view(v: Seq<String>) -> Seq<Seq<char>> {
    v.map_values(|s: String| s@)
}

fn copy_texts(v: &Vec<String>) -> (r: Vec<String>)
    ensures
        r@ == v@,
{
    let mut r: Vec<String> = Vec::new();
    let mut i: usize = 0;
    while i < v.len()
        invariant
            i <= v@.len(),
            r@ == v@.take(i as int),
        decreases v@.len() - i,
    {
        r.push(v[i].clone());
        assert(v@.take(i + 1) =~= v@.take(i as int).push(v@[i as int]));
        i += 1;
    }
    assert(v@.take(v@.len() as int) =~= v@);
    r
}

/// Per-strip parametric EQ state.
#[derive(Debug)]
pub struct StripEq {
    pub enabled: bool,
    pub bands: Vec<EqBand>,
}

pub struct StripEqView {
    pub enabled: bool,
    pub bands: Seq<EqBand>,
}

impl View for StripEq {
    type V = StripEqView;

    open spec fn view(&self) -> StripEqView {
        StripEqView { enabled: self.enabled, bands: self.bands@ }
    }
}

impl Clone for StripEq {
    fn clone(&self) -> (r: Self)
        ensures
            r@ == self@,
    {
        let mut bands: Vec<EqBand> = Vec::new();
        let mut i: usize = 0;
        while i < self.bands.len()
            invariant
                i <= self.bands@.len(),
                bands@ == self.bands@.take(i as int),
            decreases self.bands@.len() - i,
        {
            bands.push(self.bands[i]);
            assert(self.bands@.take(i + 1) =~= self.bands@.take(i as int).push(self.bands@[i as int]));
            i += 1;
        }
        assert(self.bands@.take(self.bands@.len() as int) =~= self.bands@);
        StripEq { enabled: self.enabled, bands }
    }
}

pub open spec fn eq_view(o: Option<StripEq>) -> Option<StripEqView> {
    match o {
        Some(e) => Some(e@),
        None => None,
    }
}

pub fn copy_eq(o: &Option<StripEq>) -> (r: Option<StripEq>)
    ensures
        eq_view(r) == eq_view(*o),
{
    match o {
        Some(e) => Some(e.clone()),
        None => None,
    }
}

#[derive(Debug)]
pub struct InputChannel {
    pub id: u32,
    pub name: String,
    pub sink_name: String,
    pub order: u32,
    pub color: Option<String>,
    pub source_name: Option<String>,
    pub mono: bool,
    pub send_to_master: bool,
    pub pan: u32,
    pub fader: u32,
    pub muted: bool,
    pub app_match_rules: Vec<String>,
    pub is_default: bool,
    pub eq: Option<StripEq>,
    /// Marks the soundboard strip, which is provisioned at startup and cannot
    /// be removed.
    pub is_soundboard: bool,
}

pub struct InputChannelView {
    pub id: u32,
    pub name: Seq<char>,
    pub sink_name: Seq<char>,
    pub order: u32,
    pub color: Option<Seq<char>>,
    pub source_name: Option<Seq<char>>,
    pub mono: bool,
    pub send_to_master: bool,
    pub pan: u32,
    pub fader: u32,
    pub muted: bool,
    pub app_match_rules: Seq<Seq<char>>,
    pub is_default: bool,
    pub eq: Option<StripEqView>,
    pub is_soundboard: bool,
}

impl View for InputChannel {
    type V = InputChannelView;

    open spec fn view(&self) -> InputChannelView {
        InputChannelView {
            id: self.id,
            name: self.name@,
            sink_name: self.sink_name@,
            order: self.order,
            color: opt_view(self.color),
            source_name: opt_view(self.source_name),
            mono: self.mono,
            send_to_master: self.send_to_master,
            pan: self.pan,
            fader: self.fader,
            muted: self.muted,
            app_match_rules: texts_view(self.app_match_rules@),
            is_default: self.is_default,
            eq: eq_view(self.eq),
            is_soundboard: self.is_soundboard,
        }
    }
}

impl Clone for InputChannel {
    fn clone(&self) -> (r: Self)
        ensures
            r@ == self@,
    {
        InputChannel {
            id: self.id,
            name: self.name.clone(),
            sink_name: self.sink_name.clone(),
            order: self.order,
            color: copy_opt(&self.color),
            source_name: copy_opt(&self.source_name),
            mono: self.mono,
            send_to_master: self.send_to_master,
            pan: self.pan,
            fader: self.fader,
            muted: self.muted,
            app_match_rules: copy_texts(&self.app_match_rules),
            is_default: self.is_default,
            eq: copy_eq(&self.eq),
            is_soundboard: self.is_soundboard,
        }
    }
}

#[derive(Debug)]
pub struct ReturnChannel {
    pub id: u32,
    pub name: String,
    pub sink_name: String,
    pub order: u32,
    pub color: Option<String>,
    pub send_to_master: bool,
    pub pan: u32,
    pub fader: u32,
    pub muted: bool,
    pub eq: Option<StripEq>,
}

pub struct ReturnChannelView {
    pub id: u32,
    pub name: Seq<char>,
    pub sink_name: Seq<char>,
    pub order: u32,
    pub color: Option<Seq<char>>,
    pub send_to_master: bool,
    pub pan: u32,
    pub fader: u32,
    pub muted: bool,
    pub eq: Option<StripEqView>,
}

impl View for ReturnChannel {
    type V = ReturnChannelView;

    open spec fn view(&self) -> ReturnChannelView {
        ReturnChannelView {
            id: self.id,
            name: self.name@,
            sink_name: self.sink_name@,
            order: self.order,
            color: opt_view(self.color),
            send_to_master: self.send_to_master,
            pan: self.pan,
            fader: self.fader,
            muted: self.muted,
            eq: eq_view(self.eq),
        }
    }
}

impl Clone for ReturnChannel {
    fn clone(&self) -> (r: Self)
        ensures
            r@ == self@,
    {
        ReturnChannel {
            id: self.id,
            name: self.name.clone(),
            sink_name: self.sink_name.clone(),
            order: self.order,
            color: copy_opt(&self.color),
            send_to_master: self.send_to_master,
            pan: self.pan,
            fader: self.fader,
            muted: self.muted,
            eq: copy_eq(&self.eq),
        }
    }
}

/// A send from input strip `input_channel_id` to return bus
/// `return_channel_id` at `level` (bit pattern of an `f32`).
#[derive(Debug, Clone, Copy, PartialEq, Eq, Structural)]
pub struct SendRoute {
    pub input_channel_id: u32,
    pub return_channel_id: u32,
    pub level: u32,
}

impl Default for SendRoute {
    fn default() -> (r: Self)
        ensures
            r == (SendRoute { input_channel_id: 0, return_channel_id: 0, level: UNITY }),
    {
        SendRoute { input_channel_id: 0, return_channel_id: 0, level: UNITY }
    }
}

/// One hosted plugin in a MIDI strip's chain (bookkeeping only).
#[derive(Debug)]
pub struct MidiPlugin {
    pub id: u32,
    pub name: String,
    /// LV2 URI, or absolute path for VST2/VST3/CLAP.
    pub identifier: String,
    /// "LV2" | "VST2" | "VST3" | "CLAP" | "SFZ".
    pub format: String,
}

impl Clone for MidiPlugin {
    fn clone(&self) -> (r: Self)
        ensures
            r == *self,
    {
        MidiPlugin {
            id: self.id,
            name: self.name.clone(),
            identifier: self.identifier.clone(),
            format: self.format.clone(),
        }
    }
}

/// MIDI/instrument strip fed by a plugin rack.
#[derive(Debug)]
pub struct MidiChannel {
    pub id: u32,
    pub name: String,
    pub sink_name: String,
    pub order: u32,
    pub color: Option<String>,
    pub send_to_master: bool,
    pub pan: u32,
    pub fader: u32,
    pub muted: bool,
    pub plugins: Vec<MidiPlugin>,
    pub next_plugin_id: u32,
    pub osc_udp_port: u16,
    pub osc_tcp_port: u16,
}

pub struct MidiChannelView {
    pub id: u32,
    pub name: Seq<char>,
    pub sink_name: Seq<char>,
    pub order: u32,
    pub color: Option<Seq<char>>,
    pub send_to_master: bool,
    pub pan: u32,
    pub fader: u32,
    pub muted: bool,
    pub plugins: Seq<MidiPlugin>,
    pub next_plugin_id: u32,
    pub osc_udp_port: u16,
    pub osc_tcp_port: u16,
}

impl View for MidiChannel {
    type V = MidiChannelView;

    open spec fn view(&self) -> MidiChannelView {
        MidiChannelView {
            id: self.id,
            name: self.name@,
            sink_name: self.sink_name@,
            order: self.order,
            color: opt_view(self.color),
            send_to_master: self.send_to_master,
            pan: self.pan,
            fader: self.fader,
            muted: self.muted,
            plugins: self.plugins@,
            next_plugin_id: self.next_plugin_id,
            osc_udp_port: self.osc_udp_port,
            osc_tcp_port: self.osc_tcp_port,
        }
    }
}

/// The client name a MIDI strip's rack advertises.
pub open spec fn carla_client_name_of(id: u32) -> Seq<char> {
    "audibian_midi_"@ + dec(id as nat) + "_host"@
}

impl MidiChannel {
    /// Hands out the next plugin id (never 0) and advances the counter.
    pub fn next_plugin_id(&mut self) -> (id: u32)
        requires
            old(self).next_plugin_id < u32::MAX,
        ensures
            id == if old(self).next_plugin_id >= 1 { old(self).next_plugin_id } else { 1 },
            final(self)@ == (MidiChannelView { next_plugin_id: (id + 1) as u32, ..old(self)@ }),
    {
        let id = if self.next_plugin_id >= 1 { self.next_plugin_id } else { 1 };
        self.next_plugin_id = id + 1;
        id
    }

    /// Where the strip's plugin rack project is kept, under the home
    /// directory `home`: `<home>/.config/audibian/midi/midi_<id>.carxp`.
    pub fn carla_project_path(&self, home: &str) -> (r: String)
        ensures
            r@ == join_path(
                join_path(home@, ".config/audibian/midi"@),
                "midi_"@ + dec(self.id as nat) + ".carxp"@,
            ),
    {
        let dir = path_join(home, ".config/audibian/midi");
        let d = dec_u32(self.id);
        let file = join3("midi_", d.as_str(), ".carxp");
        path_join(dir.as_str(), file.as_str())
    }

    /// The client name the strip's plugin rack advertises.
    pub fn carla_client_name(&self) -> (r: String)
        ensures
            r@ == carla_client_name_of(self.id),
    {
        let d = dec_u32(self.id);
        join3("audibian_midi_", d.as_str(), "_host")
    }
}

#[derive(Debug)]
pub struct MixerConfig {
    pub next_id: u32,
    pub input_channels: Vec<InputChannel>,
    pub return_channels: Vec<ReturnChannel>,
    pub midi_channels: Vec<MidiChannel>,
    pub sends: Vec<SendRoute>,
    pub master_sink: Option<String>,
    pub global_scale: u32,
    pub master_eq: Option<StripEq>,
    pub master_fader: u32,
    pub master_pan: u32,
    pub master_muted: bool,
}

pub struct MixerConfigView {
    pub next_id: u32,
    pub input_channels: Seq<InputChannelView>,
    pub return_channels: Seq<ReturnChannelView>,
    pub midi_channels: Seq<MidiChannelView>,
    pub sends: Seq<SendRoute>,
    pub master_sink: Option<Seq<char>>,
    pub global_scale: u32,
    pub master_eq: Option<StripEqView>,
    pub master_fader: u32,
    pub master_pan: u32,
    pub master_muted: bool,
}

pub open spec fn inputs_view(v: Seq<InputChannel>) -> Seq<InputChannelView> {
    v.map_values(|c: InputChannel| c@)
}

pub open spec fn returns_view(v: Seq<ReturnChannel>) -> Seq<ReturnChannelView> {
    v.map_values(|r: ReturnChannel| r@)
}

pub open spec fn midis_view(v: Seq<MidiChannel>) -> Seq<MidiChannelView> {
    v.map_values(|m: MidiChannel| m@)
}

impl View for MixerConfig {
    type V = MixerConfigView;

    open spec fn view(&self) -> MixerConfigView {
        MixerConfigView {
            next_id: self.next_id,
            input_channels: inputs_view(self.input_channels@),
            return_channels: returns_view(self.return_channels@),
            midi_channels: midis_view(self.midi_channels@),
            sends: self.sends@,
            master_sink: opt_view(self.master_sink),
            global_scale: self.global_scale,
            master_eq: eq_view(self.master_eq),
            master_fader: self.master_fader,
            master_pan: self.master_pan,
            master_muted: self.master_muted,
        }
    }
}

impl Default for MixerConfig {
    fn default() -> (r: Self)
        ensures
            r@ == (MixerConfigView {
                next_id: 0,
                input_channels: Seq::empty(),
                return_channels: Seq::empty(),
                midi_channels: Seq::empty(),
                sends: Seq::empty(),
                master_sink: None,
                global_scale: UNITY,
                master_eq: None,
                master_fader: UNITY,
                master_pan: CENTRE,
                master_muted: false,
            }),
    {
        let r = MixerConfig {
            next_id: 0,
            input_channels: Vec::new(),
            return_channels: Vec::new(),
            midi_channels: Vec::new(),
            sends: Vec::new(),
            master_sink: None,
            global_scale: UNITY,
            master_eq: None,
            master_fader: UNITY,
            master_pan: CENTRE,
            master_muted: false,
        };
        assert(r@.input_channels =~= Seq::<InputChannelView>::empty());
        assert(r@.return_channels =~= Seq::<ReturnChannelView>::empty());
        assert(r@.midi_channels =~= Seq::<MidiChannelView>::empty());
        r
    }
}

/// Send `s` goes from input `input_id` to return `return_id`.
pub open spec fn send_is(s: SendRoute, input_id: u32, return_id: u32) -> bool {
    s.input_channel_id == input_id && s.return_channel_id == return_id
}

/// Some send goes from input `input_id` to return `return_id`.
pub open spec fn has_send_in(sends: Seq<SendRoute>, input_id: u32, return_id: u32) -> bool {
    exists|i: int| 0 <= i < sends.len() && send_is(#[trigger] sends[i], input_id, return_id)
}

/// The first send from `input_id` to `return_id`, if any.
pub open spec fn first_send(sends: Seq<SendRoute>, input_id: u32, return_id: u32) -> Option<int>
    decreases sends.len(),
{
    if sends.len() == 0 {
        None
    } else if send_is(sends[0], input_id, return_id) {
        Some(0)
    } else {
        match first_send(sends.drop_first(), input_id, return_id) {
            Some(i) => Some(i + 1),
            None => None,
        }
    }
}

/// Input ids are distinct, return ids are distinct, no input shares an id
/// with a return, and no two sends join the same pair of strips.
pub open spec fn mixer_wf(c: MixerConfigView) -> bool {
    &&& forall|i: int, j: int|
        0 <= i < c.input_channels.len() && 0 <= j < c.input_channels.len() && i != j
            ==> #[trigger] c.input_channels[i].id != #[trigger] c.input_channels[j].id
    &&& forall|i: int, j: int|
        0 <= i < c.return_channels.len() && 0 <= j < c.return_channels.len() && i != j
            ==> #[trigger] c.return_channels[i].id != #[trigger] c.return_channels[j].id
    &&& forall|i: int, j: int|
        0 <= i < c.input_channels.len() && 0 <= j < c.return_channels.len()
            ==> #[trigger] c.input_channels[i].id != #[trigger] c.return_channels[j].id
    &&& forall|i: int, j: int|
        0 <= i < c.sends.len() && 0 <= j < c.sends.len() && i != j ==> !send_is(
            #[trigger] c.sends[i],
            #[trigger] c.sends[j].input_channel_id,
            c.sends[j].return_channel_id,
        )
}

pub proof fn lemma_first_send(sends: Seq<SendRoute>, input_id: u32, return_id: u32)
    ensures
        first_send(sends, input_id, return_id) is Some <==> has_send_in(sends, input_id, return_id),
        first_send(sends, input_id, return_id) matches Some(i) ==> 0 <= i < sends.len() && send_is(
            sends[i],
            input_id,
            return_id,
        ) && forall|j: int| 0 <= j < i ==> !send_is(#[trigger] sends[j], input_id, return_id),
    decreases sends.len(),
{
    if sends.len() > 0 {
        lemma_first_send(sends.drop_first(), input_id, return_id);
        if !send_is(sends[0], input_id, return_id) {
            if has_send_in(sends, input_id, return_id) {
                let k = choose|k: int| 0 <= k < sends.len() && send_is(#[trigger] sends[k], input_id, return_id);
                assert(sends.drop_first()[k - 1] == sends[k]);
            }
            if has_send_in(sends.drop_first(), input_id, return_id) {
                let k = choose|k: int|
                    0 <= k < sends.drop_first().len() && send_is(
                        #[trigger] sends.drop_first()[k],
                        input_id,
                        return_id,
                    );
                assert(sends[k + 1] == sends.drop_first()[k]);
            }
            if first_send(sends, input_id, return_id) is Some {
                let i = first_send(sends, input_id, return_id).unwrap();
                assert forall|j: int| 0 <= j < i implies !send_is(#[trigger] sends[j], input_id, return_id) by {
                    if j > 0 {
                        assert(sends[j] == sends.drop_first()[j - 1]);
                    }
                }
            }
        }
    }
}

fn find_send(sends: &Vec<SendRoute>, input_id: u32, return_id: u32) -> (r: Option<usize>)
    ensures
        r matches Some(i) ==> first_send(sends@, input_id, return_id) == Some(i as int) && i
            < sends@.len(),
        r is None ==> first_send(sends@, input_id, return_id) is None,
{
    let mut i: usize = 0;
    proof {
        lemma_first_send(sends@, input_id, return_id);
    }
    while i < sends.len()
        invariant
            i <= sends@.len(),
            forall|j: int| 0 <= j < i ==> !send_is(#[trigger] sends@[j], input_id, return_id),
            first_send(sends@, input_id, return_id) matches Some(k) ==> i <= k,
        decreases sends@.len() - i,
    {
        if sends[i].input_channel_id == input_id && sends[i].return_channel_id == return_id {
            proof {
                lemma_first_send(sends@, input_id, return_id);
                let k = first_send(sends@, input_id, return_id).unwrap();
                if k != i {
                    assert(!send_is(sends@[i as int], input_id, return_id));
                }
            }
            return Some(i);
        }
        proof {
            lemma_first_send(sends@, input_id, return_id);
        }
        i += 1;
    }
    None
}

impl MixerConfig {
    /// Where the mixer configuration is kept, under the home directory
    /// `home`.
    pub fn config_path(home: &str) -> (r: String)
        ensures
            r@ == join_path(home@, ".config/audibian/mixer.toml"@),
    {
        path_join(home, ".config/audibian/mixer.toml")
    }

    /// Hands out the next channel id and advances the counter.
    pub fn next_channel_id(&mut self) -> (id: u32)
        requires
            old(self).next_id < u32::MAX,
        ensures
            id == old(self).next_id,
            final(self)@ == (MixerConfigView { next_id: (id + 1) as u32, ..old(self)@ }),
    {
        let id = self.next_id;
        self.next_id = id + 1;
        id
    }

    pub fn has_send(&self, input_id: u32, return_id: u32) -> (r: bool)
        ensures
            r == has_send_in(self.sends@, input_id, return_id),
    {
        proof {
            lemma_first_send(self.sends@, input_id, return_id);
        }
        find_send(&self.sends, input_id, return_id).is_some()
    }

    /// Adds a unity-level send from `input_id` to `return_id` unless one
    /// exists already.
    pub fn add_send(&mut self, input_id: u32, return_id: u32)
        ensures
            final(self)@ == (MixerConfigView {
                sends: if has_send_in(old(self).sends@, input_id, return_id) {
                    old(self).sends@
                } else {
                    old(self).sends@.push(
                        SendRoute {
                            input_channel_id: input_id,
                            return_channel_id: return_id,
                            level: UNITY,
                        },
                    )
                },
                ..old(self)@
            }),
    {
        if !self.has_send(input_id, return_id) {
            self.sends.push(
                SendRoute { input_channel_id: input_id, return_channel_id: return_id, level: UNITY },
            );
        }
    }

    /// Removes every send from `input_id` to `return_id`.
    pub fn remove_send(&mut self, input_id: u32, return_id: u32)
        ensures
            final(self)@ == (MixerConfigView {
                sends: old(self).sends@.filter(|s: SendRoute| !send_is(s, input_id, return_id)),
                ..old(self)@
            }),
    {
        let keep = |s: &SendRoute| -> (r: bool)
            ensures
                r == !send_is(*s, input_id, return_id),
            { !(s.input_channel_id == input_id && s.return_channel_id == return_id) };
        retain_where(
            &mut self.sends,
            keep,
            Ghost(|s: SendRoute| !send_is(s, input_id, return_id)),
        );
    }

    /// Sets the level of the first send from `input_id` to `return_id` (the
    /// caller limits `level` to the range it allows).
    pub fn set_send_level(&mut self, input_id: u32, return_id: u32, level: u32)
        ensures
            final(self)@ == (MixerConfigView {
                sends: match first_send(old(self).sends@, input_id, return_id) {
                    Some(i) => old(self).sends@.update(
                        i,
                        SendRoute { level, ..old(self).sends@[i] },
                    ),
                    None => old(self).sends@,
                },
                ..old(self)@
            }),
    {
        proof {
            lemma_first_send(self.sends@, input_id, return_id);
        }
        match find_send(&self.sends, input_id, return_id) {
            Some(i) => {
                let s = self.sends[i];
                self.sends.set(i, SendRoute { level, ..s });
            },
            None => {},
        }
    }

    /// The level of the first send from `input_id` to `return_id`, if any.
    pub fn get_send_level(&self, input_id: u32, return_id: u32) -> (r: Option<u32>)
        ensures
            r == (match first_send(self.sends@, input_id, return_id) {
                Some(i) => Some(self.sends@[i].level),
                None => None,
            }),
    {
        proof {
            lemma_first_send(self.sends@, input_id, return_id);
        }
        match find_send(&self.sends, input_id, return_id) {
            Some(i) => Some(self.sends[i].level),
            None => None,
        }
    }
}

/// Strip `c` plays into the soundboard sink.
pub open spec fn on_soundboard_sink(c: InputChannelView) -> bool {
    c.sink_name == SOUNDBOARD_SINK_NAME@
}

/// Some input strip is the soundboard strip or plays into its sink.
pub open spec fn has_soundboard(inputs: Seq<InputChannelView>) -> bool {
    exists|i: int|
        0 <= i < inputs.len() && (#[trigger] inputs[i].is_soundboard || on_soundboard_sink(
            inputs[i],
        ))
}

/// The soundboard strip as it is first provisioned.
pub open spec fn soundboard_channel(id: u32, order: u32) -> InputChannelView {
    InputChannelView {
        id,
        name: "Soundboard"@,
        sink_name: SOUNDBOARD_SINK_NAME@,
        order,
        color: Some("#a18c47"@),
        source_name: None,
        mono: false,
        send_to_master: true,
        pan: CENTRE,
        fader: UNITY,
        muted: false,
        app_match_rules: Seq::empty(),
        is_default: false,
        eq: None,
        is_soundboard: true,
    }
}

pub open spec fn sb_match(c: InputChannel) -> bool {
    c.is_soundboard || c.sink_name@ == SOUNDBOARD_SINK_NAME@
}

pub open spec fn sink_is_soundboard() -> spec_fn(InputChannel) -> bool {
    |c: InputChannel| c.sink_name@ == SOUNDBOARD_SINK_NAME@
}

impl MixerConfig {
    /// Makes sure a soundboard input strip exists. When one is present (by
    /// flag or by sink name), flags the first strip on the soundboard sink
    /// and answers false; otherwise appends a new soundboard strip and
    /// answers true.
    #[verifier::spinoff_prover]
    pub fn ensure_soundboard_channel(&mut self) -> (added: bool)
        requires
            !has_soundboard(old(self)@.input_channels) ==> old(self).next_id < u32::MAX,
        ensures
            added == !has_soundboard(old(self)@.input_channels),
            !added ==> final(self)@ == (MixerConfigView {
                input_channels: match first_where(old(self).input_channels@, sink_is_soundboard()) {
                    Some(i) => old(self)@.input_channels.update(
                        i,
                        InputChannelView { is_soundboard: true, ..old(self)@.input_channels[i] },
                    ),
                    None => old(self)@.input_channels,
                },
                ..old(self)@
            }),
            added ==> final(self)@ == (MixerConfigView {
                next_id: (old(self).next_id + 1) as u32,
                input_channels: old(self)@.input_channels.push(
                    soundboard_channel(old(self).next_id, old(self).input_channels@.len() as u32),
                ),
                ..old(self)@
            }),
    {
        let mut found = false;
        let mut k: usize = 0;
        while k < self.input_channels.len()
            invariant
                k <= self.input_channels@.len(),
                found == exists|i: int| 0 <= i < k && sb_match(#[trigger] self.input_channels@[i]),
            decreases self.input_channels@.len() - k,
        {
            let c = &self.input_channels[k];
            if c.is_soundboard || same_text(c.sink_name.as_str(), SOUNDBOARD_SINK_NAME) {
                found = true;
                assert(sb_match(self.input_channels@[k as int]));
            } else {
                assert(!sb_match(self.input_channels@[k as int]));
            }
            k += 1;
        }
        proof {
            let v = self@.input_channels;
            assert forall|i: int| 0 <= i < v.len() implies #[trigger] v[i] == self.input_channels@[i]@ by {}
            if found {
                let i = choose|i: int| 0 <= i < k && sb_match(#[trigger] self.input_channels@[i]);
                let c = self.input_channels@[i];
                assert(v[i] == c@);
                assert(v[i].sink_name == c.sink_name@);
                assert(v[i].is_soundboard == c.is_soundboard);
                assert(sb_match(c));
                assert(v[i].is_soundboard || on_soundboard_sink(v[i]));
                assert(0 <= i < v.len());
                assert(has_soundboard(v));
            } else {
                assert forall|i: int| 0 <= i < v.len() implies !(#[trigger] v[i].is_soundboard
                    || on_soundboard_sink(v[i])) by {
                    assert(!sb_match(self.input_channels@[i]));
                }
            }
        }
        if found {
            let pick = |c: &InputChannel| -> (r: bool)
                ensures
                    r == (c.sink_name@ == SOUNDBOARD_SINK_NAME@),
                { same_text(c.sink_name.as_str(), SOUNDBOARD_SINK_NAME) };
            match find_first(&self.input_channels, pick, Ghost(sink_is_soundboard())) {
                Some(i) => {
                    let mut c = self.input_channels[i].clone();
                    c.is_soundboard = true;
                    self.input_channels.set(i, c);
                    assert(self@.input_channels =~= old(self)@.input_channels.update(
                        i as int,
                        InputChannelView { is_soundboard: true, ..old(self)@.input_channels[i as int] },
                    ));
                },
                None => {},
            }
            return false;
        }
        let id = self.next_channel_id();
        let order = self.input_channels.len() as u32;
        let ch = InputChannel {
            id,
            name: text_copy("Soundboard"),
            sink_name: text_copy(SOUNDBOARD_SINK_NAME),
            order,
            color: Some(text_copy("#a18c47")),
            source_name: None,
            mono: false,
            send_to_master: true,
            pan: CENTRE,
            fader: UNITY,
            muted: false,
            app_match_rules: Vec::new(),
            is_default: false,
            eq: None,
            is_soundboard: true,
        };
        assert(ch@.app_match_rules =~= Seq::<Seq<char>>::empty());
        self.input_channels.push(ch);
        assert(self@.input_channels =~= old(self)@.input_channels.push(
            soundboard_channel(old(self).next_id, old(self).input_channels@.len() as u32),
        ));
        true
    }

    /// The first input strip flagged as the default one, if any.
    pub fn default_input_channel(&self) -> (r: Option<&InputChannel>)
        ensures
            r is Some == first_where(self.input_channels@, |c: InputChannel| c.is_default) is Some,
            r matches Some(c) ==> self.input_channels@[first_where(
                self.input_channels@,
                |c: InputChannel| c.is_default,
            ).unwrap()] == *c,
    {
        let pick = |c: &InputChannel| -> (r: bool)
            ensures
                r == c.is_default,
            { c.is_default };
        match find_first(&self.input_channels, pick, Ghost(|c: InputChannel| c.is_default)) {
            Some(i) => Some(&self.input_channels[i]),
            None => None,
        }
    }
}

} // verus!

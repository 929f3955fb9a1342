//! Solo keys, the solo set and the effective mute of a strip.
use vstd::prelude::*;

use crate::text::{dec, dec_u32, join2, lemma_dec_digits, lemma_dec_injective, same_text};

verus! {

/// The solo key of a strip: `in:<id>` for an input strip, `ret:<id>` for a
/// return strip.
pub open spec fn strip_key_of(is_input: bool, id: u32) -> Seq<char> {
    if is_input {
        "in:"@ + dec(id as nat)
    } else {
        "ret:"@ + dec(id as nat)
    }
}

/// Builds the solo key of a strip.
pub fn strip_key(is_input: bool, id: u32) -> (r: String)
    ensures
        r@ == strip_key_of(is_input, id),
{
    let digits = dec_u32(id);
    if is_input {
        join2("in:", digits.as_str())
    } else {
        join2("ret:", digits.as_str())
    }
}

/// Two strips share a solo key only when they are the same strip.
pub proof fn lemma_strip_key_injective(a_input: bool, a: u32, b_input: bool, b: u32)
    requires
        strip_key_of(a_input, a) == strip_key_of(b_input, b),
    ensures
        a_input == b_input,
        a == b,
{
    reveal_strlit("in:");
    reveal_strlit("ret:");
    let k = strip_key_of(a_input, a);
    lemma_dec_digits(a as nat);
    lemma_dec_digits(b as nat);
    if a_input != b_input {
        assert(k[0] == 'i' || k[0] == 'r');
        assert(strip_key_of(a_input, a)[0] != strip_key_of(b_input, b)[0]);
    } else {
        let p: int = if a_input { 3 } else { 4 };
        assert(dec(a as nat) =~= k.subrange(p, k.len() as int));
        assert(dec(b as nat) =~= strip_key_of(b_input, b).subrange(p, k.len() as int));
        lemma_dec_injective(a as nat, b as nat);
    }
}

/// Whether a strip is silent: it is muted itself, or some strip is soloed
/// and this one is not. The master bus is never subject to solo.
pub open spec fn effective_mute(muted: bool, solos: Seq<Seq<char>>, key: Seq<char>) -> bool {
    muted || (solos.len() > 0 && !solos.contains(key))
}

pub open spec fn texts(v: Seq<String>) -> Seq<Seq<char>> {
    v.map_values(|s: String| s@)
}

/// The strips currently soloed, by solo key, in the order they were soloed.
#[derive(Debug)]
pub struct SoloSet {
    keys: Vec<String>,
}

impl View for SoloSet {
    type V = Seq<Seq<char>>;

    closed spec fn view(&self) -> Seq<Seq<char>> {
        texts(self.keys@)
    }
}

/// The solo set after soloing `key`.
pub open spec fn solo_added(s: Seq<Seq<char>>, key: Seq<char>) -> Seq<Seq<char>> {
    if s.contains(key) {
        s
    } else {
        s.push(key)
    }
}

/// The solo set after un-soloing `key`.
pub open spec fn solo_removed(s: Seq<Seq<char>>, key: Seq<char>) -> Seq<Seq<char>> {
    s.filter(other_than(key))
}

/// Keys other than `key`.
pub open spec fn other_than(key: Seq<char>) -> spec_fn(Seq<char>) -> bool {
    |k: Seq<char>| k != key
}

impl SoloSet {
    /// No strip soloed.
    pub fn new() -> (r: Self)
        ensures
            r@ == Seq::<Seq<char>>::empty(),
    {
        let r = SoloSet { keys: Vec::new() };
        assert(r@ =~= Seq::<Seq<char>>::empty());
        r
    }

    fn index_of(&self, key: &str) -> (r: Option<usize>)
        ensures
            r matches Some(i) ==> i < self@.len() && self@[i as int] == key@,
            r is None ==> !self@.contains(key@),
    {
        let mut i: usize = 0;
        while i < self.keys.len()
            invariant
                i <= self.keys@.len(),
                self@.len() == self.keys@.len(),
                forall|j: int| 0 <= j < i ==> self@[j] != key@,
            decreases self.keys@.len() - i,
        {
            if same_text(self.keys[i].as_str(), key) {
                return Some(i);
            }
            i += 1;
        }
        None
    }

    /// Whether `key` is soloed.
    pub fn contains(&self, key: &str) -> (r: bool)
        ensures
            r == self@.contains(key@),
    {
        self.index_of(key).is_some()
    }

    /// Whether no strip is soloed.
    pub fn is_empty(&self) -> (r: bool)
        ensures
            r == (self@.len() == 0),
    {
        self.keys.len() == 0
    }

    /// Solos `key` (nothing changes when it is soloed already).
    pub fn insert(&mut self, key: String)
        ensures
            final(self)@ == solo_added(old(self)@, key@),
            old(self)@.no_duplicates() ==> final(self)@.no_duplicates(),
    {
        if self.index_of(key.as_str()).is_none() {
            let ghost k = key@;
            self.keys.push(key);
            assert(self@ =~= old(self)@.push(k));
        }
    }

    /// Un-solos `key`.
    pub fn remove(&mut self, key: &str)
        ensures
            final(self)@ == solo_removed(old(self)@, key@),
            old(self)@.no_duplicates() ==> final(self)@.no_duplicates(),
    {
        let ghost pred = other_than(key@);
        let mut kept: Vec<String> = Vec::new();
        let mut i: usize = 0;
        proof {
            reveal(Seq::filter);
            assert(self@.take(0) =~= Seq::<Seq<char>>::empty());
        }
        while i < self.keys.len()
            invariant
                i <= self.keys@.len(),
                self@.len() == self.keys@.len(),
                self == old(self),
                pred == other_than(key@),
                texts(kept@) == self@.take(i as int).filter(pred),
            decreases self.keys@.len() - i,
        {
            proof {
                assert(self@.take(i + 1) =~= self@.take(i as int).push(self@[i as int]));
                self@.take(i as int).lemma_filter_push(self@[i as int], pred);
            }
            if !same_text(self.keys[i].as_str(), key) {
                let ghost before = kept@;
                kept.push(self.keys[i].clone());
                assert(texts(kept@) =~= texts(before).push(self@[i as int]));
            }
            i += 1;
        }
        proof {
            assert(self@.take(self@.len() as int) =~= self@);
            if old(self)@.no_duplicates() {
                assert forall|a: int, b: int|
                    0 <= a < texts(kept@).len() && 0 <= b < texts(kept@).len() && a != b
                    implies texts(kept@)[a] != texts(kept@)[b] by {
                    lemma_filter_order_distinct(old(self)@, pred, a, b);
                }
            }
        }
        self.keys = kept;
    }

    /// The soloed keys.
    pub fn keys(&self) -> (r: Vec<String>)
        ensures
            texts(r@) == self@,
    {
        let mut out: Vec<String> = Vec::new();
        let mut i: usize = 0;
        while i < self.keys.len()
            invariant
                i <= self.keys@.len(),
                self@.len() == self.keys@.len(),
                texts(out@) == self@.take(i as int),
            decreases self.keys@.len() - i,
        {
            let ghost before = out@;
            out.push(self.keys[i].clone());
            assert(texts(out@) =~= texts(before).push(self@[i as int]));
            assert(self@.take(i + 1) =~= self@.take(i as int).push(self@[i as int]));
            i += 1;
        }
        assert(self@.take(self@.len() as int) =~= self@);
        out
    }

    /// Whether a strip with solo key `key` and mute flag `muted` is silent.
    pub fn is_effectively_muted(&self, key: &str, muted: bool) -> (r: bool)
        ensures
            r == effective_mute(muted, self@, key@),
    {
        muted || (!self.is_empty() && !self.contains(key))
    }
}

proof fn lemma_filter_order_distinct(s: Seq<Seq<char>>, p: spec_fn(Seq<char>) -> bool, a: int, b: int)
    requires
        s.no_duplicates(),
        0 <= a < s.filter(p).len(),
        0 <= b < s.filter(p).len(),
        a != b,
    ensures
        s.filter(p)[a] != s.filter(p)[b],
    decreases s.len(),
{
    reveal(Seq::filter);
    if s.len() > 0 {
        let init = s.drop_last();
        assert(init.no_duplicates()) by {
            assert forall|i: int, j: int| 0 <= i < init.len() && 0 <= j < init.len() && i != j implies init[i] != init[j] by {
                assert(init[i] == s[i] && init[j] == s[j]);
            }
        }
        assert(s =~= init.push(s.last()));
        init.lemma_filter_push(s.last(), p);
        let fi = init.filter(p);
        if p(s.last()) {
            let n = fi.len() as int;
            if a < n && b < n {
                lemma_filter_order_distinct(init, p, a, b);
            } else {
                let i = if a < n { a } else { b };
                assert(fi.contains(fi[i]));
                init.lemma_filter_contains_rev(p, fi[i]);
                let j = choose|j: int| 0 <= j < init.len() && init[j] == fi[i];
                assert(s[j] == init[j]);
                assert(s[j] != s[s.len() - 1]);
            }
        } else {
            lemma_filter_order_distinct(init, p, a, b);
        }
    }
}

/// Un-soloing a strip right after soloing it leaves the solo set as it was,
/// when that strip was not soloed before.
pub proof fn lemma_solo_roundtrip(s: Seq<Seq<char>>, key: Seq<char>)
    requires
        !s.contains(key),
    ensures
        solo_removed(solo_added(s, key), key) == s,
    decreases s.len(),
{
    let p = other_than(key);
    reveal(Seq::filter);
    assert(solo_added(s, key) == s.push(key));
    s.lemma_filter_push(key, p);
    assert forall|i: int| 0 <= i < s.len() implies p(#[trigger] s[i]) by {
        assert(s[i] != key);
    }
    lemma_filter_all(s, p);
}

proof fn lemma_filter_all(s: Seq<Seq<char>>, p: spec_fn(Seq<char>) -> bool)
    requires
        forall|i: int| 0 <= i < s.len() ==> p(#[trigger] s[i]),
    ensures
        s.filter(p) == s,
    decreases s.len(),
{
    reveal(Seq::filter);
    if s.len() > 0 {
        lemma_filter_all(s.drop_last(), p);
        assert(s =~= s.drop_last().push(s.last()));
        s.drop_last().lemma_filter_push(s.last(), p);
    } else {
        assert(s.filter(p) =~= s);
    }
}

/// With nothing soloed every strip follows its own mute flag; a soloed strip
/// always follows its own mute flag; while something is soloed every strip
/// that is not soloed is silent.
pub proof fn lemma_solo_rules(muted: bool, solos: Seq<Seq<char>>, key: Seq<char>)
    ensures
        solos.len() == 0 ==> effective_mute(muted, solos, key) == muted,
        solos.contains(key) ==> effective_mute(muted, solos, key) == muted,
        solos.len() > 0 && !solos.contains(key) ==> effective_mute(muted, solos, key),
{
}

/// What a strip's volume, pan and mute are pushed as: its sink, fader, pan
/// and effective mute.
#[derive(Debug)]
pub struct StripLevels {
    pub sink: String,
    pub fader: u32,
    pub pan: u32,
    pub muted: bool,
}

pub struct StripLevelsView {
    pub sink: Seq<char>,
    pub fader: u32,
    pub pan: u32,
    pub muted: bool,
}

impl View for StripLevels {
    type V = StripLevelsView;

    open spec fn view(&self) -> StripLevelsView {
        StripLevelsView { sink: self.sink@, fader: self.fader, pan: self.pan, muted: self.muted }
    }
}

} // verus!

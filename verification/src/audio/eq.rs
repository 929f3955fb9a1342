//! Parametric EQ band descriptions.
//!
//! A band's frequency, gain and Q are kept as the bit patterns of `f64`
//! values; the coefficient arithmetic itself is floating point and lives
//! with the program, not here.
use vstd::prelude::*;

use crate::text::{dec, dec_u64, join3};

verus! {

#[derive(Debug, Clone, Copy, PartialEq, Eq, Structural)]
pub enum FilterType {
    LowShelf,
    HighShelf,
    Peak,
    LowPass,
    HighPass,
    Notch,
}

/// Serialisable mirror of [`FilterType`].
#[derive(Debug, Clone, Copy, PartialEq, Eq, Structural)]
pub enum FilterTypeSerial {
    LowShelf,
    HighShelf,
    Peak,
    LowPass,
    HighPass,
    Notch,
}

pub open spec fn filter_type_of(s: FilterTypeSerial) -> FilterType {
    match s {
        FilterTypeSerial::LowShelf => FilterType::LowShelf,
        FilterTypeSerial::HighShelf => FilterType::HighShelf,
        FilterTypeSerial::Peak => FilterType::Peak,
        FilterTypeSerial::LowPass => FilterType::LowPass,
        FilterTypeSerial::HighPass => FilterType::HighPass,
        FilterTypeSerial::Notch => FilterType::Notch,
    }
}

impl From<FilterTypeSerial> for FilterType {
    fn from(s: FilterTypeSerial) -> (r: Self) {
        match s {
            FilterTypeSerial::LowShelf => FilterType::LowShelf,
            FilterTypeSerial::HighShelf => FilterType::HighShelf,
            FilterTypeSerial::Peak => FilterType::Peak,
            FilterTypeSerial::LowPass => FilterType::LowPass,
            FilterTypeSerial::HighPass => FilterType::HighPass,
            FilterTypeSerial::Notch => FilterType::Notch,
        }
    }
}

impl vstd::std_specs::convert::FromSpecImpl<FilterTypeSerial> for FilterType {
    open spec fn obeys_from_spec() -> bool {
        true
    }

    open spec fn from_spec(v: FilterTypeSerial) -> Self {
        filter_type_of(v)
    }
}

/// One parametric EQ band. `frequency` (Hz), `gain_db` and `q` are the bit
/// patterns of `f64` values.
#[derive(Debug, Clone, Copy, PartialEq, Eq, Structural)]
pub struct EqBand {
    pub filter_type: FilterTypeSerial,
    pub frequency: u64,
    pub gain_db: u64,
    pub q: u64,
    pub enabled: bool,
}

impl Default for EqBand {
    /// A flat 1 kHz peaking band with Q 1, enabled.
    fn default() -> (r: Self)
        ensures
            r == (EqBand {
                filter_type: FilterTypeSerial::Peak,
                frequency: 0x408f_4000_0000_0000,
                gain_db: 0,
                q: 0x3ff0_0000_0000_0000,
                enabled: true,
            }),
    {
        EqBand {
            filter_type: FilterTypeSerial::Peak,
            frequency: 0x408f_4000_0000_0000,
            gain_db: 0,
            q: 0x3ff0_0000_0000_0000,
            enabled: true,
        }
    }
}

/// The filter-chain builtin that implements a band of type `t`.
pub open spec fn label_of(t: FilterTypeSerial) -> Seq<char> {
    match t {
        FilterTypeSerial::LowShelf => "bq_lowshelf"@,
        FilterTypeSerial::HighShelf => "bq_highshelf"@,
        FilterTypeSerial::LowPass => "bq_lowpass"@,
        FilterTypeSerial::HighPass => "bq_highpass"@,
        FilterTypeSerial::Notch => "bq_notch"@,
        FilterTypeSerial::Peak => "bq_peaking"@,
    }
}

/// The filter-chain builtin that implements a band of type `t`.
pub fn filter_label(t: FilterTypeSerial) -> (r: &'static str)
    ensures
        r@ == label_of(t),
{
    match t {
        FilterTypeSerial::LowShelf => "bq_lowshelf",
        FilterTypeSerial::HighShelf => "bq_highshelf",
        FilterTypeSerial::LowPass => "bq_lowpass",
        FilterTypeSerial::HighPass => "bq_highpass",
        FilterTypeSerial::Notch => "bq_notch",
        FilterTypeSerial::Peak => "bq_peaking",
    }
}

/// How many bands are enabled.
pub open spec fn enabled_count(bands: Seq<EqBand>) -> nat {
    bands.filter(|b: EqBand| b.enabled).len()
}

pub fn count_enabled(bands: &[EqBand]) -> (n: usize)
    ensures
        n == enabled_count(bands@),
{
    let ghost pred = |b: EqBand| b.enabled;
    let mut n: usize = 0;
    let mut i: usize = 0;
    proof {
        reveal(Seq::filter);
        assert(bands@.take(0) =~= Seq::<EqBand>::empty());
    }
    while i < bands.len()
        invariant
            i <= bands@.len(),
            pred == (|b: EqBand| b.enabled),
            n == bands@.take(i as int).filter(pred).len(),
            n <= i,
        decreases bands@.len() - i,
    {
        proof {
            assert(bands@.take(i + 1) =~= bands@.take(i as int).push(bands@[i as int]));
            bands@.take(i as int).lemma_filter_push(bands@[i as int], pred);
        }
        if bands[i].enabled {
            n += 1;
        }
        i += 1;
    }
    assert(bands@.take(bands@.len() as int) =~= bands@);
    n
}

/// The two link lines (left and right channel) from biquad `i` to `i + 1`.
pub open spec fn link_lines(i: nat) -> Seq<char> {
    "                { output = \"bq_"@ + dec(i) + ":Out L\"  input = \"bq_"@ + dec(i + 1)
        + ":In L\" }\n"@ + "                { output = \"bq_"@ + dec(i) + ":Out R\"  input = \"bq_"@
        + dec(i + 1) + ":In R\" }\n"@
}

/// The chain links of biquads `0..n`, one pair of lines per consecutive pair.
pub open spec fn chain_links(n: nat) -> Seq<char>
    decreases n,
{
    if n <= 1 {
        Seq::empty()
    } else {
        chain_links((n - 1) as nat) + link_lines((n - 2) as nat)
    }
}

proof fn lemma_occurs_in_concat(a: Seq<char>, b: Seq<char>, x: Seq<char>, i: int)
    requires
        crate::text::occurs_at(a, x, i),
    ensures
        crate::text::occurs_at(a + b, x, i),
{
    assert((a + b).subrange(i, i + x.len()) =~= a.subrange(i, i + x.len()));
}

proof fn lemma_occurs_after(a: Seq<char>, b: Seq<char>, x: Seq<char>, i: int)
    requires
        crate::text::occurs_at(b, x, i),
    ensures
        crate::text::occurs_at(a + b, x, a.len() + i),
{
    assert((a + b).subrange(a.len() + i, a.len() + i + x.len()) =~= b.subrange(i, i + x.len()));
}

/// The links of a chain of `n` biquads join every biquad to the next: for
/// each `i` below `n - 1` the text holds the line linking `bq_i`'s left
/// output to `bq_(i+1)`'s left input and the line doing the same for the
/// right channel; it is empty for one biquad or none.
pub proof fn lemma_chain_links_join_neighbours(n: nat)
    ensures
        n <= 1 ==> chain_links(n).len() == 0,
        forall|i: nat|
            i + 1 < n ==> crate::text::has_sub(
                #[trigger] chain_links(n),
                "                { output = \"bq_"@ + dec(i) + ":Out L\"  input = \"bq_"@ + dec(i + 1)
                    + ":In L\" }\n"@,
            ) && crate::text::has_sub(
                chain_links(n),
                "                { output = \"bq_"@ + dec(i) + ":Out R\"  input = \"bq_"@ + dec(i + 1)
                    + ":In R\" }\n"@,
            ),
    decreases n,
{
    if n > 1 {
        let m = (n - 1) as nat;
        lemma_chain_links_join_neighbours(m);
        let head = chain_links(m);
        let last = (n - 2) as nat;
        let l = "                { output = \"bq_"@ + dec(last) + ":Out L\"  input = \"bq_"@ + dec(last + 1)
            + ":In L\" }\n"@;
        let r = "                { output = \"bq_"@ + dec(last) + ":Out R\"  input = \"bq_"@ + dec(last + 1)
            + ":In R\" }\n"@;
        assert(link_lines(last) =~= l + r);
        assert(chain_links(n) == head + (l + r));
        assert forall|i: nat| i + 1 < n implies crate::text::has_sub(
            #[trigger] chain_links(n),
            "                { output = \"bq_"@ + dec(i) + ":Out L\"  input = \"bq_"@ + dec(i + 1)
                + ":In L\" }\n"@,
        ) && crate::text::has_sub(
            chain_links(n),
            "                { output = \"bq_"@ + dec(i) + ":Out R\"  input = \"bq_"@ + dec(i + 1)
                + ":In R\" }\n"@,
        ) by {
            let li = "                { output = \"bq_"@ + dec(i) + ":Out L\"  input = \"bq_"@ + dec(i + 1)
                + ":In L\" }\n"@;
            let ri = "                { output = \"bq_"@ + dec(i) + ":Out R\"  input = \"bq_"@ + dec(i + 1)
                + ":In R\" }\n"@;
            if i + 1 < m {
                assert(crate::text::has_sub(chain_links(m), li));
                assert(crate::text::has_sub(chain_links(m), ri));
                let p = choose|p: int| crate::text::occurs_at(head, li, p);
                let q = choose|q: int| crate::text::occurs_at(head, ri, q);
                lemma_occurs_in_concat(head, l + r, li, p);
                lemma_occurs_in_concat(head, l + r, ri, q);
            } else {
                assert(i == last);
                assert(crate::text::occurs_at(l, li, 0)) by {
                    assert(l.subrange(0, li.len() as int) =~= li);
                }
                lemma_occurs_in_concat(l, r, li, 0);
                lemma_occurs_after(head, l + r, li, 0);
                assert(crate::text::occurs_at(r, ri, 0)) by {
                    assert(r.subrange(0, ri.len() as int) =~= ri);
                }
                lemma_occurs_after(l, r, ri, 0);
                lemma_occurs_after(head, l + r, ri, l.len() as int);
            }
        }
    }
}

fn link_lines_text(i: u64) -> (out: String)
    requires
        i < u64::MAX,
    ensures
        out@ == link_lines(i as nat),
{
    let a = dec_u64(i);
    let b = dec_u64(i + 1);
    let mut out = join3("                { output = \"bq_", a.as_str(), ":Out L\"  input = \"bq_");
    out.append(b.as_str());
    out.append(":In L\" }\n");
    out.append("                { output = \"bq_");
    out.append(a.as_str());
    out.append(":Out R\"  input = \"bq_");
    out.append(b.as_str());
    out.append(":In R\" }\n");
    out
}

/// The `links` section of a filter graph that chains the enabled bands'
/// biquads in order (empty for one band or none).
pub fn build_filter_links(bands: &[EqBand]) -> (out: String)
    ensures
        out@ == chain_links(enabled_count(bands@)),
{
    let count = count_enabled(bands);
    let mut out = String::new();
    let mut k: usize = 1;
    while k < count
        invariant
            1 <= k,
            k <= count || (count == 0 && k == 1),
            count == enabled_count(bands@),
            count <= bands@.len(),
            out@ == chain_links(k as nat),
        decreases count - k,
    {
        let line = link_lines_text((k - 1) as u64);
        out.append(line.as_str());
        k += 1;
    }
    if count == 0 {
        assert(chain_links(0) =~= chain_links(1));
    }
    out
}

/// A band's frequency, Q and gain as written into a filter graph (with
/// one, three and two decimals), formatted by the caller.
#[derive(Debug)]
pub struct BandNumbers {
    pub freq: String,
    pub q: String,
    pub gain: String,
}

pub open spec fn numbers_view(v: Seq<BandNumbers>) -> Seq<(Seq<char>, Seq<char>, Seq<char>)> {
    v.map_values(|n: BandNumbers| (n.freq@, n.q@, n.gain@))
}

/// The filter-graph node of biquad `idx`: `label` is its builtin, and
/// `indent` starts its control line.
pub open spec fn node_entry(
    label: Seq<char>,
    idx: nat,
    n: (Seq<char>, Seq<char>, Seq<char>),
    indent: Seq<char>,
) -> Seq<char> {
    "                { type = builtin  label = "@ + label + "  name = bq_"@ + dec(idx) + "\n"@ + indent
        + "control = { \"Freq\" = "@ + n.0 + "  \"Q\" = "@ + n.1 + "  \"Gain\" = "@ + n.2 + " } }\n"@
}

/// The nodes of the enabled bands of `bands`, numbered from 0 in order. A
/// strip EQ names each band's own builtin and starts its control lines at
/// the margin; the sink EQ uses a peaking biquad for every band and indents
/// its control lines.
pub open spec fn band_entries(
    bands: Seq<EqBand>,
    nums: Seq<(Seq<char>, Seq<char>, Seq<char>)>,
    strip: bool,
) -> Seq<char>
    decreases bands.len(),
{
    if bands.len() == 0 || nums.len() != bands.len() {
        Seq::empty()
    } else {
        let rest = band_entries(bands.drop_last(), nums.drop_last(), strip);
        let b = bands.last();
        if b.enabled {
            rest + node_entry(
                if strip {
                    label_of(b.filter_type)
                } else {
                    "bq_peaking"@
                },
                enabled_count(bands.drop_last()),
                nums.last(),
                if strip {
                    Seq::empty()
                } else {
                    "                  "@
                },
            )
        } else {
            rest
        }
    }
}

/// The `nodes` section of a filter graph: the enabled bands' biquads, or a
/// flat 1 kHz peaking biquad when no band is enabled.
pub open spec fn filter_nodes_of(
    bands: Seq<EqBand>,
    nums: Seq<(Seq<char>, Seq<char>, Seq<char>)>,
    strip: bool,
) -> Seq<char> {
    if enabled_count(bands) == 0 {
        node_entry(
            "bq_peaking"@,
            0,
            ("1000.0"@, "1.0"@, "0.0"@),
            if strip {
                Seq::empty()
            } else {
                "                  "@
            },
        )
    } else {
        band_entries(bands, nums, strip)
    }
}

fn node_entry_text(label: &str, idx: usize, n: &BandNumbers, strip: bool) -> (out: String)
    ensures
        out@ == node_entry(
            label@,
            idx as nat,
            (n.freq@, n.q@, n.gain@),
            if strip {
                Seq::empty()
            } else {
                "                  "@
            },
        ),
{
    let digits = dec_u64(idx as u64);
    let mut out = join3("                { type = builtin  label = ", label, "  name = bq_");
    out.append(digits.as_str());
    out.append("\n");
    if !strip {
        out.append("                  ");
    } else {
        proof {
            reveal_strlit("");
        }
        out.append("");
    }
    out.append("control = { \"Freq\" = ");
    out.append(n.freq.as_str());
    out.append("  \"Q\" = ");
    out.append(n.q.as_str());
    out.append("  \"Gain\" = ");
    out.append(n.gain.as_str());
    out.append(" } }\n");
    out
}

/// The `nodes` section of a filter graph (see [`filter_nodes_of`]);
/// `numbers[k]` are the written numbers of `bands[k]`.
pub fn build_filter_nodes(bands: &[EqBand], numbers: &[BandNumbers], strip: bool) -> (out: String)
    requires
        numbers@.len() == bands@.len(),
    ensures
        out@ == filter_nodes_of(bands@, numbers_view(numbers@), strip),
{
    let ghost nv = numbers_view(numbers@);
    let ghost pred = |b: EqBand| b.enabled;
    let mut out = String::new();
    let mut idx: usize = 0;
    let mut i: usize = 0;
    proof {
        reveal(Seq::filter);
        assert(bands@.take(0) =~= Seq::<EqBand>::empty());
        assert(out@ =~= band_entries(bands@.take(0), nv.take(0), strip));
    }
    while i < bands.len()
        invariant
            i <= bands@.len(),
            numbers@.len() == bands@.len(),
            nv == numbers_view(numbers@),
            pred == (|b: EqBand| b.enabled),
            idx == enabled_count(bands@.take(i as int)),
            idx <= i,
            out@ == band_entries(bands@.take(i as int), nv.take(i as int), strip),
        decreases bands@.len() - i,
    {
        proof {
            assert(bands@.take(i + 1) =~= bands@.take(i as int).push(bands@[i as int]));
            bands@.take(i as int).lemma_filter_push(bands@[i as int], pred);
            assert(bands@.take(i + 1).drop_last() =~= bands@.take(i as int));
            assert(nv.take(i + 1).drop_last() =~= nv.take(i as int));
            assert(nv.take(i + 1).last() == nv[i as int]);
        }
        let b = bands[i];
        if b.enabled {
            let label = if strip {
                filter_label(b.filter_type)
            } else {
                "bq_peaking"
            };
            let entry = node_entry_text(label, idx, &numbers[i], strip);
            out.append(entry.as_str());
            idx += 1;
        }
        i += 1;
    }
    proof {
        assert(bands@.take(bands@.len() as int) =~= bands@);
        assert(nv.take(nv.len() as int) =~= nv);
    }
    if idx == 0 {
        let flat = BandNumbers {
            freq: crate::text::text_copy("1000.0"),
            q: crate::text::text_copy("1.0"),
            gain: crate::text::text_copy("0.0"),
        };
        return node_entry_text("bq_peaking", 0, &flat, strip);
    }
    out
}

} // verus!

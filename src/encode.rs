use vstd::prelude::*;
use crate::frequency::{unigram_freq, Bigram, BigramTable, Freq, UnigramTable};
use crate::layout::{slot_position, Key, Layout, NotFound, Point, KEY_COUNT};
use crate::text::index_of_from;

verus! {

/// Bigrams below `THRESHOLD_NUM / THRESHOLD_DEN` of the largest count are not drawn.
pub const THRESHOLD_NUM: u64 = 1;

pub const THRESHOLD_DEN: u64 = 5;

/// An arrow of normalized frequency `d` is `d * THICKNESS_SCALE` thick.
pub const THICKNESS_SCALE: u128 = 20;

/// The denominator of the fixed palette.
pub const PALETTE_SCALE: u128 = 4;

/// A colour whose channels are `r / scale`, `g / scale`, `b / scale`, kept exact.
#[derive(Clone, Copy, Debug, PartialEq, Eq)]
pub struct Shade {
    pub r: u128,
    pub g: u128,
    pub b: u128,
    pub scale: u128,
}

/// A non-negative number `num / den`, kept exact.
#[derive(Clone, Copy, Debug, PartialEq, Eq)]
pub struct Ratio {
    pub num: u128,
    pub den: u128,
}

/// A colour of the palette: channels in `[0, 1]` over `PALETTE_SCALE`.
pub open spec fn palette_wf(c: Shade) -> bool {
    c.scale == PALETTE_SCALE && c.r <= PALETTE_SCALE && c.g <= PALETTE_SCALE && c.b
        <= PALETTE_SCALE
}

/// `a` and `b` are the same colour, whatever their scales.
pub open spec fn same_shade(a: Shade, b: Shade) -> bool {
    &&& a.r * b.scale == b.r * a.scale
    &&& a.g * b.scale == b.g * a.scale
    &&& a.b * b.scale == b.b * a.scale
}

/// Key colour at frequency 0: white.
pub open spec fn base_color() -> Shade {
    Shade { r: 4, g: 4, b: 4, scale: 4 }
}

/// Key colour at frequency 1: red.
pub open spec fn highlight_color() -> Shade {
    Shade { r: 4, g: 0, b: 0, scale: 4 }
}

/// Key colour for a glyph without data: grey.
pub open spec fn no_data_color() -> Shade {
    Shade { r: 2, g: 2, b: 2, scale: 4 }
}

/// Arrow colour at frequency 1: green.
pub open spec fn strong_arrow_color() -> Shade {
    Shade { r: 0, g: 4, b: 0, scale: 4 }
}

/// Arrow colour at frequency 0: a quarter green and three quarters blue.
pub open spec fn weak_arrow_color() -> Shade {
    Shade { r: 0, g: 1, b: 3, scale: 4 }
}

/// `from * (1 - d) + to * d`, over the common scale times `d.max`.
pub open spec fn blend_spec(from: Shade, to: Shade, d: Freq) -> Shade {
    Shade {
        r: (from.r * (d.max - d.count) + to.r * d.count) as u128,
        g: (from.g * (d.max - d.count) + to.g * d.count) as u128,
        b: (from.b * (d.max - d.count) + to.b * d.count) as u128,
        scale: (from.scale * d.max) as u128,
    }
}

/// Linear interpolation from `from` at `d = 0` to `to` at `d = 1`.
pub fn blend(from: Shade, to: Shade, d: Freq) -> (r: Shade)
    requires
        palette_wf(from),
        palette_wf(to),
        d.wf(),
    ensures
        r == blend_spec(from, to, d),
{
    let k = d.count as u128;
    let rest = (d.max - d.count) as u128;
    proof {
        assert(from.r * rest <= 4 * rest) by (nonlinear_arith)
            requires from.r <= 4;
        assert(to.r * k <= 4 * k) by (nonlinear_arith)
            requires to.r <= 4;
        assert(from.g * rest <= 4 * rest) by (nonlinear_arith)
            requires from.g <= 4;
        assert(to.g * k <= 4 * k) by (nonlinear_arith)
            requires to.g <= 4;
        assert(from.b * rest <= 4 * rest) by (nonlinear_arith)
            requires from.b <= 4;
        assert(to.b * k <= 4 * k) by (nonlinear_arith)
            requires to.b <= 4;
    }
    Shade {
        r: from.r * rest + to.r * k,
        g: from.g * rest + to.g * k,
        b: from.b * rest + to.b * k,
        scale: from.scale * (d.max as u128),
    }
}

/// The colour of a key holding glyph `c`, given the unigram records and their maximum.
pub open spec fn key_color_spec(recs: Seq<(char, u64)>, max: u64, c: char) -> Shade {
    match unigram_freq(recs, max, c) {
        Some(d) => blend_spec(base_color(), highlight_color(), d),
        None => no_data_color(),
    }
}

/// The colour of a key holding glyph `c`.
pub fn key_color(unigrams: &UnigramTable, c: char) -> (r: Shade)
    requires
        unigrams.wf(),
    ensures
        r == key_color_spec(unigrams.records(), unigrams.max(), c),
{
    match unigrams.get(c) {
        Some(d) => blend(
            Shade { r: 4, g: 4, b: 4, scale: 4 },
            Shade { r: 4, g: 0, b: 0, scale: 4 },
            d,
        ),
        None => Shade { r: 2, g: 2, b: 2, scale: 4 },
    }
}

/// The colour of every slot of `layout`, slot by slot.
pub fn assign_key_colors(layout: &Layout, unigrams: &UnigramTable) -> (r: Vec<Shade>)
    requires
        layout.wf(),
        unigrams.wf(),
    ensures
        r@ == key_colors_spec(layout.glyphs(), unigrams.records(), unigrams.max()),
{
    let mut r: Vec<Shade> = Vec::new();
    let mut i: usize = 0;
    while i < KEY_COUNT
        invariant
            layout.wf(),
            unigrams.wf(),
            i <= KEY_COUNT,
            r.len() == i,
            forall|j: int|
                0 <= j < i ==> r[j] == key_color_spec(
                    unigrams.records(),
                    unigrams.max(),
                    #[trigger] layout.glyphs()[j],
                ),
        decreases KEY_COUNT - i,
    {
        r.push(key_color(unigrams, layout.ch(i)));
        i = i + 1;
    }
    assert(r@ =~= key_colors_spec(layout.glyphs(), unigrams.records(), unigrams.max()));
    r
}

/// The colours of the keys of a layout whose glyphs are `g`.
pub open spec fn key_colors_spec(g: Seq<char>, recs: Seq<(char, u64)>, max: u64) -> Seq<Shade> {
    g.map_values(|c: char| key_color_spec(recs, max, c))
}

/// A bigram is drawn when its glyphs differ and its frequency reaches the threshold.
pub open spec fn visible_spec(b: Bigram, d: Freq) -> bool {
    b.first != b.second && d.count * THRESHOLD_DEN >= d.max * THRESHOLD_NUM
}

/// Whether bigram `b` of frequency `d` gets an arrow.
pub fn visible(b: Bigram, d: Freq) -> (r: bool)
    requires
        d.wf(),
    ensures
        r == visible_spec(b, d),
{
    let lhs = (d.count as u128) * (THRESHOLD_DEN as u128);
    let rhs = (d.max as u128) * (THRESHOLD_NUM as u128);
    b.first != b.second && lhs >= rhs
}

/// `d * THICKNESS_SCALE`.
pub open spec fn thickness_spec(d: Freq) -> Ratio {
    Ratio { num: (d.count * THICKNESS_SCALE) as u128, den: d.max as u128 }
}

/// The thickness of an arrow of frequency `d`.
pub fn thickness(d: Freq) -> (r: Ratio)
    requires
        d.wf(),
    ensures
        r == thickness_spec(d),
{
    Ratio { num: (d.count as u128) * THICKNESS_SCALE, den: d.max as u128 }
}

/// A transition drawn from one key to another.
#[derive(Clone, Copy, Debug, PartialEq, Eq)]
pub struct Arrow {
    pub from: Key,
    pub to: Key,
    pub thickness: Ratio,
    pub color: Shade,
}

impl Arrow {
    pub open spec fn wf(&self) -> bool {
        self.from.wf() && self.to.wf()
    }

    /// The sum of the coordinates of both endpoints: what seeds the arrow's jitter,
    /// so that its motion follows from its geometry alone.
    pub fn seed_base(&self) -> (r: i64)
        requires
            self.wf(),
        ensures
            r == slot_position(self.from.0 as int).x + slot_position(self.from.0 as int).y
                + slot_position(self.to.0 as int).x + slot_position(self.to.0 as int).y,
    {
        let a: Point = self.from.pos();
        let b: Point = self.to.pos();
        a.x + a.y + b.x + b.y
    }
}

/// The arrow of record `r` on a layout whose glyphs are `g`.
pub open spec fn arrow_spec(g: Seq<char>, r: (char, char, u64), max: u64) -> Arrow {
    let d = Freq { count: r.2, max };
    Arrow {
        from: Key(index_of_from(g, 0, r.0) as usize),
        to: Key(index_of_from(g, 0, r.1) as usize),
        thickness: thickness_spec(d),
        color: blend_spec(weak_arrow_color(), strong_arrow_color(), d),
    }
}

/// A later record of `recs` has the same bigram as record `i`, and overrides it.
pub open spec fn overridden(recs: Seq<(char, char, u64)>, i: int) -> bool {
    exists|j: int| i < j < recs.len() && recs[j].0 == recs[i].0 && recs[j].1 == recs[i].1
}

/// Record `i` of `recs` gets an arrow.
pub open spec fn drawn(recs: Seq<(char, char, u64)>, max: u64, i: int) -> bool {
    &&& !overridden(recs, i)
    &&& visible_spec(Bigram { first: recs[i].0, second: recs[i].1 }, Freq { count: recs[i].2, max })
}

/// The arrows of the first `n` records, in record order; fails on the first drawn
/// record with a glyph that the layout lacks.
pub open spec fn arrows_spec(g: Seq<char>, recs: Seq<(char, char, u64)>, max: u64, n: int) -> Result<
    Seq<Arrow>,
    NotFound,
>
    decreases n,
{
    if n <= 0 {
        Ok(Seq::empty())
    } else {
        match arrows_spec(g, recs, max, n - 1) {
            Err(e) => Err(e),
            Ok(a) => if !drawn(recs, max, n - 1) {
                Ok(a)
            } else if !g.contains(recs[n - 1].0) {
                Err(NotFound { glyph: recs[n - 1].0 })
            } else if !g.contains(recs[n - 1].1) {
                Err(NotFound { glyph: recs[n - 1].1 })
            } else {
                Ok(a.push(arrow_spec(g, recs[n - 1], max)))
            },
        }
    }
}

/// Whether a later record than `i` holds the same bigram.
fn is_overridden(bigrams: &BigramTable, i: usize) -> (r: bool)
    requires
        bigrams.wf(),
        i < bigrams.records().len(),
    ensures
        r == overridden(bigrams.records(), i as int),
{
    let (b, _) = bigrams.record(i);
    let n = bigrams.len();
    let mut j: usize = i + 1;
    while j < n
        invariant
            n == bigrams.records().len(),
            bigrams.wf(),
            i < j <= bigrams.records().len(),
            b == (Bigram { first: bigrams.records()[i as int].0, second: bigrams.records()[i as int].1 }),
            forall|k: int|
                i < k < j ==> !(bigrams.records()[k].0 == bigrams.records()[i as int].0
                    && bigrams.records()[k].1 == bigrams.records()[i as int].1),
        decreases bigrams.records().len() - j,
    {
        let (c, _) = bigrams.record(j);
        if c.first == b.first && c.second == b.second {
            return true;
        }
        j = j + 1;
    }
    false
}

/// The arrows of `bigrams` on `layout`: one per bigram whose last record is
/// visible, from the slot of its first glyph to the slot of its second.
pub fn spawn_bigram_arrows(layout: &Layout, bigrams: &BigramTable) -> (r: Result<
    Vec<Arrow>,
    NotFound,
>)
    requires
        layout.wf(),
        bigrams.wf(),
    ensures
        match arrows_spec(layout.glyphs(), bigrams.records(), bigrams.max(), bigrams.records().len() as int) {
            Ok(a) => r is Ok && r->Ok_0@ == a,
            Err(e) => r is Err && r->Err_0 == e,
        },
        r is Ok ==> forall|k: int| 0 <= k < r->Ok_0.len() ==> (#[trigger] r->Ok_0[k]).wf(),
{
    let mut out: Vec<Arrow> = Vec::new();
    let mut i: usize = 0;
    while i < bigrams.len()
        invariant
            layout.wf(),
            bigrams.wf(),
            i <= bigrams.records().len(),
            arrows_spec(layout.glyphs(), bigrams.records(), bigrams.max(), i as int) is Ok,
            out@ == arrows_spec(layout.glyphs(), bigrams.records(), bigrams.max(), i as int)->Ok_0,
            forall|k: int| 0 <= k < out.len() ==> (#[trigger] out[k]).wf(),
        decreases bigrams.records().len() - i,
    {
        let (b, d) = bigrams.record(i);
        if !is_overridden(bigrams, i) && visible(b, d) {
            let from = match layout.find(b.first) {
                Ok(k) => k,
                Err(e) => {
                    proof {
                        lemma_arrows_error_sticks(layout.glyphs(), bigrams.records(), bigrams.max(), i + 1, bigrams.records().len() as int);
                    }
                    return Err(e);
                },
            };
            let to = match layout.find(b.second) {
                Ok(k) => k,
                Err(e) => {
                    proof {
                        lemma_arrows_error_sticks(layout.glyphs(), bigrams.records(), bigrams.max(), i + 1, bigrams.records().len() as int);
                    }
                    return Err(e);
                },
            };
            let color = blend(Shade { r: 0, g: 1, b: 3, scale: 4 }, Shade { r: 0, g: 4, b: 0, scale: 4 }, d);
            out.push(Arrow { from, to, thickness: thickness(d), color });
        }
        i = i + 1;
    }
    Ok(out)
}

/// Colour interpolation is exact: frequency 0 gives the start colour, frequency 1
/// the end colour, and frequency one half their arithmetic midpoint.
pub proof fn law_blend_endpoints(from: Shade, to: Shade, max: u64, half: u64)
    requires
        palette_wf(from),
        palette_wf(to),
        max > 0,
        2 * half == max,
    ensures
        same_shade(blend_spec(from, to, Freq { count: 0, max }), from),
        same_shade(blend_spec(from, to, Freq { count: max, max }), to),
        same_shade(
            blend_spec(from, to, Freq { count: half, max }),
            Shade {
                r: (from.r + to.r) as u128,
                g: (from.g + to.g) as u128,
                b: (from.b + to.b) as u128,
                scale: (2 * PALETTE_SCALE) as u128,
            },
        ),
{
    lemma_channel(from.r as int, to.r as int, max as int, half as int);
    lemma_channel(from.g as int, to.g as int, max as int, half as int);
    lemma_channel(from.b as int, to.b as int, max as int, half as int);
}

/// One channel of the blend at frequencies 0, 1 and one half.
proof fn lemma_channel(x: int, y: int, m: int, h: int)
    requires
        2 * h == m,
        0 <= x <= 4,
        0 <= y <= 4,
        0 <= h,
    ensures
        0 <= x * (m - 0) + y * 0 <= 4 * m,
        0 <= x * (m - m) + y * m <= 4 * m,
        0 <= x * (m - h) + y * h <= 4 * m,
        (x * (m - 0) + y * 0) * 4 == x * (4 * m),
        (x * (m - m) + y * m) * 4 == y * (4 * m),
        (x * (m - h) + y * h) * 8 == (x + y) * (4 * m),
{
    assert(0 <= x * (m - 0) + y * 0 <= 4 * m) by (nonlinear_arith)
        requires
            0 <= x <= 4,
            0 <= m,
    ;
    assert(0 <= x * (m - m) + y * m <= 4 * m) by (nonlinear_arith)
        requires
            0 <= y <= 4,
            0 <= m,
    ;
    assert(0 <= x * (m - h) + y * h <= 4 * m) by (nonlinear_arith)
        requires
            0 <= x <= 4,
            0 <= y <= 4,
            0 <= h <= m,
    ;
    assert((x * (m - 0) + y * 0) * 4 == x * (4 * m)) by (nonlinear_arith);
    assert((x * (m - m) + y * m) * 4 == y * (4 * m)) by (nonlinear_arith);
    assert((x * (m - h) + y * h) * 8 == (x + y) * (4 * m)) by (nonlinear_arith)
        requires
            2 * h == m,
    ;
}

/// Key colours run from the base colour at frequency 0 to the highlight colour at
/// frequency 1, through their midpoint at one half.
pub proof fn law_key_color_interpolation(max: u64, half: u64)
    requires
        max > 0,
        2 * half == max,
    ensures
        same_shade(blend_spec(base_color(), highlight_color(), Freq { count: 0, max }), base_color()),
        same_shade(blend_spec(base_color(), highlight_color(), Freq { count: max, max }), highlight_color()),
        same_shade(
            blend_spec(base_color(), highlight_color(), Freq { count: half, max }),
            Shade { r: 8, g: 4, b: 4, scale: 8 },
        ),
{
    law_blend_endpoints(base_color(), highlight_color(), max, half);
}

/// A bigram whose glyphs differ is drawn exactly when its frequency reaches the
/// threshold and no later record overrides it; one of a glyph with itself never is.
pub proof fn law_arrow_filter(recs: Seq<(char, char, u64)>, max: u64, i: int)
    requires
        0 <= i < recs.len(),
    ensures
        recs[i].0 == recs[i].1 ==> !drawn(recs, max, i),
        recs[i].0 != recs[i].1 ==> (drawn(recs, max, i) <==> !overridden(recs, i) && 5 * recs[i].2
            >= max),
{
}

/// With one record per bigram no record is overridden: each record's normalized
/// frequency is its bigram's, so the whole table lies in `[0, 1]` and the largest
/// count maps to exactly 1.
pub proof fn law_bigram_records_stand(t: &BigramTable)
    requires
        t.wf(),
        forall|i: int, j: int|
            0 <= i < j < t.records().len() ==> !(t.records()[i].0 == t.records()[j].0
                && t.records()[i].1 == t.records()[j].1),
    ensures
        forall|i: int| 0 <= i < t.records().len() ==> !overridden(t.records(), i),
        forall|i: int|
            0 <= i < t.records().len() ==> (Freq { count: #[trigger] t.records()[i].2, max: t.max() }).wf(),
        t.records().len() > 0 ==> exists|i: int|
            0 <= i < t.records().len() && #[trigger] t.records()[i].2 == t.max(),
{
    crate::frequency::law_bigram_normalized(t);
}

/// On bigram records `ab` 8, `ba` 1 and `aa` 3, any layout holding `a` and `b`
/// gets one arrow, for `ab` at full strength: `ba` falls below the threshold and
/// `aa` is a glyph with itself.
pub proof fn law_arrows_of_small_table(g: Seq<char>)
    requires
        g.contains('a'),
        g.contains('b'),
    ensures
        arrows_spec(g, seq![('a', 'b', 8u64), ('b', 'a', 1u64), ('a', 'a', 3u64)], 8, 3) == Ok::<
            Seq<Arrow>,
            NotFound,
        >(seq![arrow_spec(g, ('a', 'b', 8u64), 8)]),
{
    let recs = seq![('a', 'b', 8u64), ('b', 'a', 1u64), ('a', 'a', 3u64)];
    assert(!overridden(recs, 0));
    assert(drawn(recs, 8, 0));
    assert(!drawn(recs, 8, 1));
    assert(!drawn(recs, 8, 2));
    assert(recs[0].0 == 'a' && recs[0].1 == 'b');
    assert(arrows_spec(g, recs, 8, 0) == Ok::<Seq<Arrow>, NotFound>(Seq::empty()));
    assert(Seq::<Arrow>::empty().push(arrow_spec(g, recs[0], 8)) =~= seq![arrow_spec(g, recs[0], 8)]);
    assert(arrows_spec(g, recs, 8, 1) == Ok::<Seq<Arrow>, NotFound>(seq![arrow_spec(g, recs[0], 8)]));
    assert(arrows_spec(g, recs, 8, 2) == arrows_spec(g, recs, 8, 1));
}

/// Once the arrows of a prefix fail, all later prefixes fail with the same glyph.
proof fn lemma_arrows_error_sticks(g: Seq<char>, recs: Seq<(char, char, u64)>, max: u64, k: int, n: int)
    requires
        0 <= k <= n,
        arrows_spec(g, recs, max, k) is Err,
    ensures
        arrows_spec(g, recs, max, n) == arrows_spec(g, recs, max, k),
    decreases n - k,
{
    if k < n {
        lemma_arrows_error_sticks(g, recs, max, k, n - 1);
    }
}

} // verus!

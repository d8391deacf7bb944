//! Source grids and the lightness-ordered palettes built from them.
use crate::color::{
    hsl_round_trip, hsl_round_trip_of, lemma_lightness_leq_total, lightness_key, lightness_leq, Rgb,
};
use vstd::prelude::*;
use vstd::relations::sorted_by;
use vstd::seq_lib::{group_to_multiset_ensures, lemma_sorted_unique};

verus! {

/// A decoded image: `width * height` pixels in row-major order.
pub struct SourceGrid {
    width: u32,
    height: u32,
    pixels: Vec<Rgb>,
}

impl SourceGrid {
    pub open spec fn wf(&self) -> bool {
        self@.len() == self.spec_width() as int * self.spec_height() as int
    }

    pub closed spec fn spec_width(&self) -> u32 {
        self.width
    }

    pub closed spec fn spec_height(&self) -> u32 {
        self.height
    }

    pub closed spec fn view(&self) -> Seq<Rgb> {
        self.pixels@
    }

    pub fn width(&self) -> (r: u32)
        ensures
            r == self.spec_width(),
    {
        self.width
    }

    pub fn height(&self) -> (r: u32)
        ensures
            r == self.spec_height(),
    {
        self.height
    }

    /// The pixels, row after row.
    pub fn pixels(&self) -> (r: &Vec<Rgb>)
        ensures
            r@ == self@,
    {
        &self.pixels
    }

    /// A grid of the given size over `pixels`, row after row; `None` where
    /// the number of pixels is not `width * height`.
    pub fn new(width: u32, height: u32, pixels: Vec<Rgb>) -> (r: Option<SourceGrid>)
        ensures
            r is Some <==> pixels@.len() == width as int * height as int,
            r matches Some(g) ==> g.wf() && g.spec_width() == width && g.spec_height() == height
                && g@ == pixels@,
    {
        assert(width as int * height as int <= u32::MAX as int * u32::MAX as int)
            by (nonlinear_arith);
        let n = width as u64 * height as u64;
        if pixels.len() as u64 == n {
            Some(SourceGrid { width, height, pixels })
        } else {
            None
        }
    }
}

/// The colors of `src` in palette order: ascending by lightness, as they
/// stand before the conversion back to RGB.
pub open spec fn lightness_order(src: Seq<Rgb>) -> Seq<Rgb> {
    src.sort_by(lightness_leq())
}

/// The palette of `src`: its colors in lightness order, each converted to
/// HSL and back to RGB.
pub open spec fn palette_of(src: Seq<Rgb>) -> Seq<Rgb> {
    lightness_order(src).map_values(|c: Rgb| hsl_round_trip_of(c))
}

/// Relies on `slice::sort_by_key`: afterwards the slice holds the same items,
/// ascending by the key; the key is the tuple of `Rgb::order_key`, which
/// tuples compare lexicographically, as `rgb_leq` does.
#[verifier::external_body]
fn sort_by_lightness(v: &mut Vec<Rgb>)
    ensures
        final(v)@.to_multiset() == old(v)@.to_multiset(),
        sorted_by(final(v)@, lightness_leq()),
{
    v.sort_by_key(|c| c.order_key())
}

/// Every pixel of `grid`, row after row, ordered from darkest to lightest and
/// converted to HSL and back.
pub fn build_palette(grid: &SourceGrid) -> (palette: Vec<Rgb>)
    ensures
        palette@ == palette_of(grid@),
        palette@.len() == grid@.len(),
        grid.wf() ==> palette@.len() == grid.spec_width() as int * grid.spec_height() as int,
{
    let n = grid.pixels.len();
    let mut sorted: Vec<Rgb> = Vec::with_capacity(n);
    for i in 0..n
        invariant
            n == grid.pixels@.len(),
            sorted@ == grid.pixels@.subrange(0, i as int),
    {
        sorted.push(grid.pixels[i]);
        assert(grid.pixels@.subrange(0, i + 1) =~= grid.pixels@.subrange(0, i as int).push(
            grid.pixels@[i as int],
        ));
    }
    assert(grid.pixels@.subrange(0, n as int) =~= grid.pixels@);
    sort_by_lightness(&mut sorted);
    proof {
        broadcast use group_to_multiset_ensures;

        lemma_lightness_leq_total();
        grid.pixels@.lemma_sort_by_ensures(lightness_leq());
        lemma_sorted_unique(sorted@, grid.pixels@.sort_by(lightness_leq()), lightness_leq());
        assert(sorted@.len() == sorted@.to_multiset().len());
    }
    let ghost order = sorted@;
    assert(order == lightness_order(grid@));
    let mut palette: Vec<Rgb> = Vec::with_capacity(n);
    for i in 0..sorted.len()
        invariant
            sorted@ == order,
            palette@ =~= order.subrange(0, i as int).map_values(|c: Rgb| hsl_round_trip_of(c)),
    {
        palette.push(hsl_round_trip(sorted[i]));
        assert(order.subrange(0, i + 1) =~= order.subrange(0, i as int).push(order[i as int]));
    }
    assert(order.subrange(0, order.len() as int) =~= order);
    palette
}

/// A palette has one entry for each pixel of its source.
pub proof fn lemma_palette_len(src: Seq<Rgb>)
    ensures
        palette_of(src).len() == src.len(),
{
    broadcast use group_to_multiset_ensures;

    lemma_lightness_leq_total();
    src.lemma_sort_by_ensures(lightness_leq());
    assert(lightness_order(src).len() == lightness_order(src).to_multiset().len());
}

/// Palette entries come in order of non-decreasing lightness: each entry is
/// taken from a color at least as light as the one of the entry before it.
pub proof fn lemma_palette_sorted(src: Seq<Rgb>)
    ensures
        forall|i: int|
            0 <= i < lightness_order(src).len() - 1 ==> lightness_key(
                #[trigger] lightness_order(src)[i],
            ) <= lightness_key(lightness_order(src)[i + 1]),
{
    lemma_lightness_leq_total();
    src.lemma_sort_by_ensures(lightness_leq());
    assert forall|i: int| 0 <= i < lightness_order(src).len() - 1 implies lightness_key(
        #[trigger] lightness_order(src)[i],
    ) <= lightness_key(lightness_order(src)[i + 1]) by {
        assert(lightness_leq()(lightness_order(src)[i], lightness_order(src)[i + 1]));
    }
}

/// Applying the HSL round trip to each item keeps two sequences with the same
/// items with the same items.
proof fn lemma_round_trip_multiset(s: Seq<Rgb>, t: Seq<Rgb>)
    requires
        s.to_multiset() == t.to_multiset(),
    ensures
        s.map_values(|c: Rgb| hsl_round_trip_of(c)).to_multiset() == t.map_values(
            |c: Rgb| hsl_round_trip_of(c),
        ).to_multiset(),
    decreases s.len(),
{
    broadcast use group_to_multiset_ensures;
    broadcast use vstd::multiset::group_multiset_axioms;

    let f = |c: Rgb| hsl_round_trip_of(c);
    if s.len() == 0 {
        assert(t.len() == t.to_multiset().len());
        assert(s.map_values(f) =~= t.map_values(f));
    } else {
        let x = s.last();
        assert(s.to_multiset().count(x) > 0) by {
            assert(s.contains(x)) by {
                assert(s[s.len() - 1] == x);
            }
        }
        assert(t.contains(x));
        let i = choose|i: int| 0 <= i < t.len() && t[i] == x;
        let s1 = s.drop_last();
        let t1 = t.remove(i);
        assert(s1 =~= s.remove(s.len() - 1));
        assert(s1.to_multiset() =~= t1.to_multiset());
        lemma_round_trip_multiset(s1, t1);
        assert(s.map_values(f) =~= s1.map_values(f).push(f(x)));
        assert(t1.map_values(f) =~= t.map_values(f).remove(i));
        assert(t.map_values(f)[i] == f(x));
        assert(t.map_values(f).to_multiset().count(f(x)) > 0) by {
            assert(t.map_values(f).contains(f(x)));
        }
        assert(t.map_values(f).to_multiset() =~= t1.map_values(f).to_multiset().insert(f(x)));
    }
}

/// A palette holds the colors of its source, each with its multiplicity,
/// once each has made the round trip through HSL.
pub proof fn lemma_palette_multiset(src: Seq<Rgb>)
    ensures
        palette_of(src).to_multiset() == src.map_values(|c: Rgb| hsl_round_trip_of(c)).to_multiset(),
{
    lemma_lightness_leq_total();
    src.lemma_sort_by_ensures(lightness_leq());
    lemma_round_trip_multiset(lightness_order(src), src);
}

} // verus!

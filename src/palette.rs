//! The palette mapper and the image assembler.
use vstd::prelude::*;
use crate::plot::ResultBuffer;

verus! {

/// A display color, three 8-bit channels.
#[derive(Clone, Copy, Debug, PartialEq, Eq, Structural)]
pub struct Color {
    pub r: u8,
    pub g: u8,
    pub b: u8,
}

/// The bucket of `count` from position `k` on: the first threshold above
/// `count`, or one past the last threshold.
pub open spec fn bucket_from(thresholds: Seq<u16>, count: u16, k: nat) -> nat
    decreases thresholds.len() - k,
{
    if k >= thresholds.len() || count < thresholds[k as int] {
        k
    } else {
        bucket_from(thresholds, count, k + 1)
    }
}

/// The bucket of `count`: bucket `k` holds the counts below threshold `k`
/// and not below any earlier one; the last bucket holds all the rest.
pub open spec fn bucket(thresholds: Seq<u16>, count: u16) -> nat {
    bucket_from(thresholds, count, 0)
}

/// A bucket index never passes the number of thresholds.
proof fn lemma_bucket_bound(thresholds: Seq<u16>, count: u16, k: nat)
    requires
        k <= thresholds.len(),
    ensures
        k <= bucket_from(thresholds, count, k) <= thresholds.len(),
    decreases thresholds.len() - k,
{
    if k < thresholds.len() && count >= thresholds[k as int] {
        lemma_bucket_bound(thresholds, count, k + 1);
    }
}

/// Thresholds in strictly increasing order.
pub open spec fn strictly_increasing(s: Seq<u16>) -> bool {
    forall|i: int, j: int| 0 <= i < j < s.len() ==> s[i] < s[j]
}

/// An ordered set of iteration-count buckets, each with a fixed color.
pub struct Palette {
    thresholds: Vec<u16>,
    colors: Vec<Color>,
}

impl Palette {
    /// The upper bounds of the buckets but the last, in increasing order.
    pub closed spec fn thresholds(&self) -> Seq<u16> {
        self.thresholds@
    }

    /// One color per bucket.
    pub closed spec fn colors(&self) -> Seq<Color> {
        self.colors@
    }

    /// One more color than thresholds, thresholds strictly increasing.
    pub open spec fn wf(&self) -> bool {
        &&& self.colors().len() == self.thresholds().len() + 1
        &&& strictly_increasing(self.thresholds())
    }

    /// The color of an iteration count.
    pub open spec fn color_of(&self, count: u16) -> Color {
        self.colors()[bucket(self.thresholds(), count) as int]
    }

    /// A palette from its thresholds and colors; `None` unless there is one
    /// color more than thresholds and the thresholds strictly increase.
    pub fn new(thresholds: Vec<u16>, colors: Vec<Color>) -> (r: Option<Palette>)
        ensures
            r is Some <==> (colors@.len() == thresholds@.len() + 1 && strictly_increasing(
                thresholds@,
            )),
            r matches Some(p) ==> p.wf() && p.thresholds() == thresholds@ && p.colors()
                == colors@,
    {
        if colors.len() == 0 || colors.len() - 1 != thresholds.len() {
            return None;
        }
        let mut i: usize = 1;
        while i < thresholds.len()
            invariant
                1 <= i,
                i <= thresholds@.len() || thresholds@.len() == 0,
                forall|a: int, b: int| 0 <= a < b < i && b < thresholds@.len() ==> thresholds@[a] < thresholds@[b],
            decreases thresholds@.len() - i,
        {
            if thresholds[i - 1] >= thresholds[i] {
                return None;
            }
            proof {
                assert forall|a: int, b: int| 0 <= a < b < i + 1 && b < thresholds@.len() implies thresholds@[a] < thresholds@[b] by {
                    if b == i && a < i - 1 {
                        assert(thresholds@[a] < thresholds@[i - 1]);
                    }
                }
            }
            i += 1;
        }
        Some(Palette { thresholds, colors })
    }

    /// The standard palette: six thresholds that double from 8 up to 128,
    /// then 255, over shades of blue that brighten with the count.
    pub fn standard() -> (r: Palette)
        ensures
            r.wf(),
            r.thresholds() == seq![8u16, 16, 32, 64, 128, 255],
            r.colors() == seq![
                Color { r: 25, g: 30, b: 8 },
                Color { r: 25, g: 30, b: 16 },
                Color { r: 25, g: 30, b: 32 },
                Color { r: 25, g: 30, b: 64 },
                Color { r: 25, g: 30, b: 128 },
                Color { r: 25, g: 30, b: 200 },
                Color { r: 25, g: 30, b: 255 },
            ],
    {
        let thresholds: Vec<u16> = vec![8, 16, 32, 64, 128, 255];
        let colors: Vec<Color> = vec![
            Color { r: 25, g: 30, b: 8 },
            Color { r: 25, g: 30, b: 16 },
            Color { r: 25, g: 30, b: 32 },
            Color { r: 25, g: 30, b: 64 },
            Color { r: 25, g: 30, b: 128 },
            Color { r: 25, g: 30, b: 200 },
            Color { r: 25, g: 30, b: 255 },
        ];
        let p = Palette { thresholds, colors };
        assert(p.thresholds() =~= seq![8u16, 16, 32, 64, 128, 255]);
        p
    }

    /// The color of an iteration count.
    pub fn color_for(&self, count: u16) -> (r: Color)
        requires
            self.wf(),
        ensures
            r == self.color_of(count),
    {
        let mut k: usize = 0;
        proof {
            lemma_bucket_bound(self.thresholds@, count, 0);
        }
        while k < self.thresholds.len() && count >= self.thresholds[k]
            invariant
                k <= self.thresholds@.len(),
                bucket(self.thresholds@, count) == bucket_from(self.thresholds@, count, k as nat),
            decreases self.thresholds@.len() - k,
        {
            k += 1;
        }
        self.colors[k]
    }
}

/// Whether every cell of the buffer holds a value.
pub open spec fn complete(cells: Seq<Option<u16>>) -> bool {
    forall|i: int| 0 <= i < cells.len() ==> (#[trigger] cells[i]) is Some
}

/// The color that the three bytes of pixel `i` spell.
pub open spec fn rgb_at(bytes: Seq<u8>, i: int) -> Color {
    Color { r: bytes[3 * i], g: bytes[3 * i + 1], b: bytes[3 * i + 2] }
}

/// The image of a complete result buffer as row-major RGB bytes, ready for
/// an image codec: three bytes, the color of the cell's count, for each cell
/// in index order.
pub fn convert_atomic_plot_buffer_to_image_buffer(plot: &ResultBuffer, palette: &Palette) -> (r: Vec<u8>)
    requires
        palette.wf(),
        complete(plot@),
    ensures
        r@.len() == 3 * plot@.len(),
        forall|i: int|
            0 <= i < plot@.len() ==> #[trigger] rgb_at(r@, i) == palette.color_of(plot@[i]->0),
{
    let n = plot.len();
    let mut r: Vec<u8> = Vec::new();
    let mut i: usize = 0;
    while i < n
        invariant
            n == plot@.len(),
            palette.wf(),
            complete(plot@),
            i <= n,
            r@.len() == 3 * i,
            forall|j: int|
                0 <= j < i ==> #[trigger] rgb_at(r@, j) == palette.color_of(plot@[j]->0),
        decreases n - i,
    {
        let v = match plot.get(i) {
            Some(v) => v,
            None => {
                assert(plot@[i as int] is Some);
                0
            },
        };
        let c = palette.color_for(v);
        let ghost old_r = r@;
        r.push(c.r);
        r.push(c.g);
        r.push(c.b);
        proof {
            assert forall|j: int| 0 <= j < i + 1 implies #[trigger] rgb_at(r@, j) == palette.color_of(plot@[j]->0) by {
                if j < i {
                    assert(rgb_at(r@, j) == rgb_at(old_r, j));
                }
            }
        }
        i += 1;
    }
    r
}

} // verus!

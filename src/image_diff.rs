use vstd::arithmetic::div_mod::lemma_fundamental_div_mod_converse;
use vstd::prelude::*;

use crate::models::IgnoreRange;

verus! {

/// An RGBA image with 8 bits per channel: `pixels` holds four bytes per
/// pixel, rows top to bottom, each row left to right.
pub struct Bitmap {
    pub width: u32,
    pub height: u32,
    pub pixels: Vec<u8>,
}

impl Bitmap {
    /// The pixel buffer holds exactly four bytes for each pixel.
    pub open spec fn wf(&self) -> bool {
        self.pixels@.len() == 4 * self.width * self.height
    }
}

/// The sums behind the change score: `changed` adds up the per-channel
/// differences of the pixels compared, `total` their per-channel maxima. The
/// score in percent is `changed * 100 / total`, and zero when `total` is zero.
#[derive(Clone, Copy, Debug, PartialEq, Eq, Structural)]
pub struct ChangeScore {
    pub changed: u128,
    pub total: u128,
}

impl ChangeScore {
    /// Whether the score is above zero.
    pub fn contains_changes(&self) -> (r: bool)
        ensures
            r == (self.changed > 0),
    {
        self.changed > 0
    }
}

/// Whether pixel `(x, y)` lies in the rectangle, corners included.
pub open spec fn in_range(x: int, y: int, r: IgnoreRange) -> bool {
    r.0.0 <= x <= r.1.0 && r.0.1 <= y <= r.1.1
}

/// Whether pixel `(x, y)` lies in any of the rectangles.
pub open spec fn is_ignored(x: int, y: int, ranges: Seq<IgnoreRange>) -> bool {
    exists|k: int| 0 <= k < ranges.len() && in_range(x, y, #[trigger] ranges[k])
}

/// Whether pixel number `p` (in raster order) of an image `width` wide is
/// ignored.
pub open spec fn pixel_ignored(width: nat, ranges: Seq<IgnoreRange>, p: int) -> bool {
    is_ignored(p % (width as int), p / (width as int), ranges)
}

pub open spec fn abs_diff(a: u8, b: u8) -> int {
    if a > b {
        a - b
    } else {
        b - a
    }
}

pub open spec fn max_of(a: u8, b: u8) -> int {
    if a > b {
        a as int
    } else {
        b as int
    }
}

/// Channel `c` of pixel `p` of the difference image, given whether the
/// pixel is ignored: white where ignored, else 255 less the difference of
/// the two channels.
pub open spec fn pixel_out(a: Seq<u8>, b: Seq<u8>, p: int, ignored: bool, c: int) -> u8 {
    if ignored {
        255
    } else {
        (255 - abs_diff(a[4 * p + c], b[4 * p + c])) as u8
    }
}

/// Channel `c` of pixel `p` of the difference image.
pub open spec fn channel_out(
    a: Seq<u8>,
    b: Seq<u8>,
    width: nat,
    ranges: Seq<IgnoreRange>,
    p: int,
    c: int,
) -> u8 {
    pixel_out(a, b, p, pixel_ignored(width, ranges, p), c)
}

/// The difference image of the first `n` pixels.
pub open spec fn diff_pixels(
    a: Seq<u8>,
    b: Seq<u8>,
    width: nat,
    ranges: Seq<IgnoreRange>,
    n: nat,
) -> Seq<u8> {
    Seq::new(4 * n, |j: int| channel_out(a, b, width, ranges, j / 4, j % 4))
}

/// The summed channel differences of pixel `p`.
pub open spec fn pixel_changed(a: Seq<u8>, b: Seq<u8>, p: int) -> int {
    abs_diff(a[4 * p], b[4 * p]) + abs_diff(a[4 * p + 1], b[4 * p + 1]) + abs_diff(
        a[4 * p + 2],
        b[4 * p + 2],
    ) + abs_diff(a[4 * p + 3], b[4 * p + 3])
}

/// The summed channel maxima of pixel `p`.
pub open spec fn pixel_total(a: Seq<u8>, b: Seq<u8>, p: int) -> int {
    max_of(a[4 * p], b[4 * p]) + max_of(a[4 * p + 1], b[4 * p + 1]) + max_of(
        a[4 * p + 2],
        b[4 * p + 2],
    ) + max_of(a[4 * p + 3], b[4 * p + 3])
}

/// The channel differences summed over the first `n` pixels not ignored.
pub open spec fn changed_sum(
    a: Seq<u8>,
    b: Seq<u8>,
    width: nat,
    ranges: Seq<IgnoreRange>,
    n: nat,
) -> int
    decreases n,
{
    if n == 0 {
        0
    } else {
        changed_sum(a, b, width, ranges, (n - 1) as nat) + if pixel_ignored(
            width,
            ranges,
            n - 1,
        ) {
            0
        } else {
            pixel_changed(a, b, n - 1)
        }
    }
}

/// The channel maxima summed over the first `n` pixels not ignored.
pub open spec fn total_sum(
    a: Seq<u8>,
    b: Seq<u8>,
    width: nat,
    ranges: Seq<IgnoreRange>,
    n: nat,
) -> int
    decreases n,
{
    if n == 0 {
        0
    } else {
        total_sum(a, b, width, ranges, (n - 1) as nat) + if pixel_ignored(width, ranges, n - 1) {
            0
        } else {
            pixel_total(a, b, n - 1)
        }
    }
}

/// The absolute difference of two bytes.
pub fn subtract_and_prevent_overflow(a: u8, b: u8) -> (r: u8)
    ensures
        r == abs_diff(a, b),
{
    if a > b {
        a - b
    } else {
        b - a
    }
}

fn max_u8(a: u8, b: u8) -> (r: u8)
    ensures
        r == max_of(a, b),
{
    if a > b {
        a
    } else {
        b
    }
}

/// Appends the four output channels of pixel `p` and returns the pixel's
/// summed differences and maxima, both zero when it is ignored.
fn push_pixel_diff(a: &Vec<u8>, b: &Vec<u8>, p: usize, ignored: bool, out: &mut Vec<u8>) -> (r: (
    u32,
    u32,
))
    requires
        4 * p + 3 < a@.len(),
        4 * p + 3 < b@.len(),
        4 * p + 3 <= usize::MAX,
    ensures
        final(out)@ == old(out)@ + seq![
            pixel_out(a@, b@, p as int, ignored, 0),
            pixel_out(a@, b@, p as int, ignored, 1),
            pixel_out(a@, b@, p as int, ignored, 2),
            pixel_out(a@, b@, p as int, ignored, 3),
        ],
        r.0 == (if ignored {
            0
        } else {
            pixel_changed(a@, b@, p as int)
        }),
        r.1 == (if ignored {
            0
        } else {
            pixel_total(a@, b@, p as int)
        }),
        r.0 <= r.1 <= 1020,
{
    if ignored {
        out.push(255);
        out.push(255);
        out.push(255);
        out.push(255);
        proof {
            assert(final(out)@ =~= old(out)@ + seq![255u8, 255u8, 255u8, 255u8]);
        }
        (0, 0)
    } else {
        let base = 4 * p;
        let d0 = subtract_and_prevent_overflow(a[base], b[base]);
        let d1 = subtract_and_prevent_overflow(a[base + 1], b[base + 1]);
        let d2 = subtract_and_prevent_overflow(a[base + 2], b[base + 2]);
        let d3 = subtract_and_prevent_overflow(a[base + 3], b[base + 3]);
        let m0 = max_u8(a[base], b[base]);
        let m1 = max_u8(a[base + 1], b[base + 1]);
        let m2 = max_u8(a[base + 2], b[base + 2]);
        let m3 = max_u8(a[base + 3], b[base + 3]);
        out.push(255 - d0);
        out.push(255 - d1);
        out.push(255 - d2);
        out.push(255 - d3);
        proof {
            assert(final(out)@ =~= old(out)@ + seq![
                pixel_out(a@, b@, p as int, ignored, 0),
                pixel_out(a@, b@, p as int, ignored, 1),
                pixel_out(a@, b@, p as int, ignored, 2),
                pixel_out(a@, b@, p as int, ignored, 3),
            ]);
        }
        (
            d0 as u32 + d1 as u32 + d2 as u32 + d3 as u32,
            m0 as u32 + m1 as u32 + m2 as u32 + m3 as u32,
        )
    }
}

fn in_ignore_ranges(x: u32, y: u32, ignore_ranges: &[IgnoreRange]) -> (r: bool)
    ensures
        r == is_ignored(x as int, y as int, ignore_ranges@),
{
    let mut k: usize = 0;
    while k < ignore_ranges.len()
        invariant
            k <= ignore_ranges@.len(),
            forall|i: int| 0 <= i < k ==> !in_range(x as int, y as int, #[trigger] ignore_ranges@[i]),
        decreases ignore_ranges@.len() - k,
    {
        let ((x1, y1), (x2, y2)) = ignore_ranges[k];
        if x1 <= x && x <= x2 && y1 <= y && y <= y2 {
            assert(in_range(x as int, y as int, ignore_ranges@[k as int]));
            return true;
        }
        k = k + 1;
    }
    false
}

/// Compares two images of equal size pixel by pixel. Pixels inside any
/// ignore rectangle come out white and count toward neither sum; every
/// other pixel contributes its channel differences and channel maxima, and
/// each of its channels comes out as 255 less the difference.
pub fn subtract_image(a: &Bitmap, b: &Bitmap, ignore_ranges: &[IgnoreRange]) -> (r: (
    ChangeScore,
    Bitmap,
))
    requires
        a.wf(),
        b.wf(),
        a.width == b.width,
        a.height == b.height,
    ensures
        r.1.width == a.width,
        r.1.height == a.height,
        r.1.wf(),
        r.1.pixels@ == diff_pixels(
            a.pixels@,
            b.pixels@,
            a.width as nat,
            ignore_ranges@,
            (a.width * a.height) as nat,
        ),
        r.0.changed == changed_sum(
            a.pixels@,
            b.pixels@,
            a.width as nat,
            ignore_ranges@,
            (a.width * a.height) as nat,
        ),
        r.0.total == total_sum(
            a.pixels@,
            b.pixels@,
            a.width as nat,
            ignore_ranges@,
            (a.width * a.height) as nat,
        ),
{
    let ghost av = a.pixels@;
    let ghost bv = b.pixels@;
    let ghost rs = ignore_ranges@;
    let ghost wn = a.width as nat;
    let w = a.width;
    let len = a.pixels.len();
    let n: usize = len / 4;
    assert(a.pixels@.len() == 4 * (a.width * a.height)) by (nonlinear_arith)
        requires
            a.pixels@.len() == 4 * a.width * a.height,
    ;
    assert(n == a.width * a.height);
    let mut out: Vec<u8> = Vec::new();
    let mut changed: u128 = 0;
    let mut total: u128 = 0;
    let mut x: u32 = 0;
    let mut y: u32 = 0;
    let mut p: usize = 0;
    while p < n
        invariant
            n == a.width * a.height,
            av.len() == 4 * n,
            bv.len() == 4 * n,
            4 * n <= usize::MAX,
            av == a.pixels@,
            bv == b.pixels@,
            rs == ignore_ranges@,
            wn == w,
            w == a.width,
            p <= n,
            p < n ==> x < w,
            p == y * w + x,
            out@.len() == 4 * p,
            forall|q: int, c: int|
                0 <= q < p && 0 <= c < 4 ==> #[trigger] out@[4 * q + c] == channel_out(
                    av,
                    bv,
                    wn,
                    rs,
                    q,
                    c,
                ),
            changed == changed_sum(av, bv, wn, rs, p as nat),
            total == total_sum(av, bv, wn, rs, p as nat),
            changed <= total,
            total <= 1020 * p,
        decreases n - p,
    {
        proof {
            lemma_fundamental_div_mod_converse(p as int, w as int, y as int, x as int);
        }
        let ignored = in_ignore_ranges(x, y, ignore_ranges);
        let ghost before = out@;
        let (dc, dt) = push_pixel_diff(&a.pixels, &b.pixels, p, ignored, &mut out);
        changed = changed + dc as u128;
        total = total + dt as u128;
        proof {
            assert(ignored == pixel_ignored(wn, rs, p as int));
            assert forall|q: int, c: int| 0 <= q < p + 1 && 0 <= c < 4 implies #[trigger] out@[4
                * q + c] == channel_out(av, bv, wn, rs, q, c) by {
                if q < p {
                    assert(out@[4 * q + c] == before[4 * q + c]);
                } else {
                    assert(out@[4 * q + c] == out@[4 * p + c]);
                }
            }
        }
        x = x + 1;
        if x == w {
            proof {
                let h = a.height as int;
                let wi = w as int;
                let yi = y as int;
                assert((yi + 1) * wi == p + 1) by (nonlinear_arith)
                    requires
                        p == yi * wi + x - 1,
                        x == wi,
                ;
                assert(yi + 1 <= h) by (nonlinear_arith)
                    requires
                        (yi + 1) * wi <= wi * h,
                        wi > 0,
                ;
            }
            x = 0;
            y = y + 1;
            proof {
                assert((y as int) * (w as int) == (y as int - 1) * (w as int) + w) by (nonlinear_arith);
            }
        }
        p = p + 1;
        proof {
            if p < n {
                assert(x < w) by {
                    if x >= w {
                        assert(p == y * w + x);
                    }
                }
            }
        }
    }
    proof {
        let want = diff_pixels(av, bv, wn, rs, n as nat);
        assert forall|j: int| 0 <= j < 4 * n implies out@[j] == want[j] by {
            let q = j / 4;
            let c = j % 4;
            assert(j == 4 * q + c);
            assert(out@[4 * q + c] == channel_out(av, bv, wn, rs, q, c));
        }
        assert(out@ =~= want);
    }
    let diff = Bitmap { width: a.width, height: a.height, pixels: out };
    (ChangeScore { changed, total }, diff)
}

/// An image compared with itself, nothing ignored, shows no change: both
/// sums' numerator is zero and every channel of the difference image is 255.
pub proof fn lemma_identical_images(a: Seq<u8>, width: nat, n: nat)
    requires
        a.len() >= 4 * n,
    ensures
        changed_sum(a, a, width, Seq::empty(), n) == 0,
        diff_pixels(a, a, width, Seq::empty(), n) == Seq::new(4 * n, |j: int| 255u8),
    decreases n,
{
    if n > 0 {
        lemma_identical_images(a, width, (n - 1) as nat);
    }
    assert(diff_pixels(a, a, width, Seq::empty(), n) =~= Seq::new(4 * n, |j: int| 255u8));
}

/// When the ignore rectangles cover every pixel of a `width` by `height`
/// image, both sums are zero whatever the pixels hold, so no change is
/// reported.
pub proof fn lemma_all_ignored(
    a: Seq<u8>,
    b: Seq<u8>,
    width: nat,
    height: nat,
    ranges: Seq<IgnoreRange>,
)
    requires
        forall|x: int, y: int| 0 <= x < width && 0 <= y < height ==> is_ignored(x, y, ranges),
    ensures
        changed_sum(a, b, width, ranges, width * height) == 0,
        total_sum(a, b, width, ranges, width * height) == 0,
{
    lemma_all_ignored_upto(a, b, width, height, ranges, width * height);
}

proof fn lemma_all_ignored_upto(
    a: Seq<u8>,
    b: Seq<u8>,
    width: nat,
    height: nat,
    ranges: Seq<IgnoreRange>,
    n: nat,
)
    requires
        forall|x: int, y: int| 0 <= x < width && 0 <= y < height ==> is_ignored(x, y, ranges),
        n <= width * height,
    ensures
        changed_sum(a, b, width, ranges, n) == 0,
        total_sum(a, b, width, ranges, n) == 0,
    decreases n,
{
    if n > 0 {
        lemma_all_ignored_upto(a, b, width, height, ranges, (n - 1) as nat);
        let p = n - 1;
        let w = width as int;
        assert(w > 0) by (nonlinear_arith)
            requires
                p < w * height,
                p >= 0,
                height >= 0,
        ;
        vstd::arithmetic::div_mod::lemma_fundamental_div_mod(p, w);
        let q = p / w;
        let r = p % w;
        assert(0 <= r < w) by {
            vstd::arithmetic::div_mod::lemma_mod_bound(p, w);
        }
        assert(0 <= q < height) by (nonlinear_arith)
            requires
                p == w * q + r,
                0 <= r < w,
                0 <= p < w * height,
        ;
        assert(pixel_ignored(width, ranges, p));
    }
}

} // verus!

use vstd::prelude::*;
use crate::color::Rgba;
use crate::error::RenderError;
use crate::raster::{filled, index_of, Raster};
use crate::widget::{placed_models, Frame, Placed, PlacedModel, VAlign};

verus! {

/// Extent of one shaped line, in pixels.
#[derive(Clone, Copy, Debug, PartialEq, Eq, Structural)]
pub struct LineMetrics {
    pub width: u32,
    pub height: u32,
}

/// One coverage sample emitted by the rasterizer, relative to the box origin.
#[derive(Clone, Copy, Debug, PartialEq, Eq, Structural)]
pub struct Coverage {
    pub x: i32,
    pub y: i32,
    pub w: u32,
    pub h: u32,
    pub color: Rgba,
}

/// What the shaping service returns for one widget's text block.
#[derive(Debug)]
pub struct Shaped {
    pub lines: Vec<LineMetrics>,
    pub units: Vec<Coverage>,
}

/// A shaped block as the contracts see it.
pub struct ShapedModel {
    pub lines: Seq<LineMetrics>,
    pub units: Seq<Coverage>,
}

impl View for Shaped {
    type V = ShapedModel;

    open spec fn view(&self) -> ShapedModel {
        ShapedModel { lines: self.lines@, units: self.units@ }
    }
}

/// The models of a sequence of shaped blocks.
pub open spec fn shaped_models(v: Seq<Shaped>) -> Seq<ShapedModel> {
    v.map_values(|s: Shaped| s@)
}

/// Outcome of a successful render call.
#[derive(Clone, Copy, Debug, PartialEq, Eq, Structural)]
pub struct ResultDrawText {
    /// Coverage samples that fell outside the raster (saturating at `u32::MAX`).
    pub count_pixel_out: u32,
}

/// Width of a shaped block: its widest line.
pub open spec fn shaped_width(lines: Seq<LineMetrics>) -> nat
    decreases lines.len(),
{
    if lines.len() == 0 {
        0
    } else {
        let w = shaped_width(lines.drop_last());
        if lines.last().width > w {
            lines.last().width as nat
        } else {
            w
        }
    }
}

/// Height of a shaped block: the sum of its line heights.
pub open spec fn shaped_height(lines: Seq<LineMetrics>) -> nat
    decreases lines.len(),
{
    if lines.len() == 0 {
        0
    } else {
        shaped_height(lines.drop_last()) + lines.last().height as nat
    }
}

/// Whether a block of the given shaped lines does not fit the box `f`.
pub open spec fn overflows(f: Frame, lines: Seq<LineMetrics>) -> bool {
    shaped_width(lines) > f.width || shaped_height(lines) > f.height
}

/// Source-over blend of one color channel: `s·sa + d·da·(1 − sa)` with alphas in `[0, 1]`.
pub open spec fn blend_channel(s: u8, sa: u8, d: u8, da: u8) -> u8 {
    ((s as int * sa as int * 255 + d as int * da as int * (255 - sa as int)) / 65025) as u8
}

/// Source-over blend of the alphas: `255·(sa + da·(1 − sa))` with alphas in `[0, 1]`.
pub open spec fn blend_alpha(sa: u8, da: u8) -> u8 {
    ((sa as int * 255 + da as int * (255 - sa as int)) / 255) as u8
}

/// `src` composited over `dst`.
pub open spec fn blend_spec(src: Rgba, dst: Rgba) -> Rgba {
    Rgba {
        r: blend_channel(src.r, src.a, dst.r, dst.a),
        g: blend_channel(src.g, src.a, dst.g, dst.a),
        b: blend_channel(src.b, src.a, dst.b, dst.a),
        a: blend_alpha(src.a, dst.a),
    }
}

fn blend_channel_exec(s: u8, sa: u8, d: u8, da: u8) -> (r: u8)
    ensures
        r == blend_channel(s, sa, d, da),
{
    let s32 = s as u32;
    let sa32 = sa as u32;
    let d32 = d as u32;
    let da32 = da as u32;
    proof {
        assert(s32 * sa32 * 255 <= 255 * sa32 * 255) by (nonlinear_arith)
            requires
                s32 <= 255,
        ;
        assert(d32 * da32 * (255 - sa32) <= 255 * 255 * (255 - sa32)) by (nonlinear_arith)
            requires
                d32 <= 255,
                da32 <= 255,
                sa32 <= 255,
        ;
        assert(255 * sa32 * 255 + 255 * 255 * (255 - sa32) == 255 * 255 * 255) by (nonlinear_arith);
        assert(s32 * sa32 <= 255 * 255) by (nonlinear_arith)
            requires
                s32 <= 255,
                sa32 <= 255,
        ;
        assert(d32 * da32 <= 255 * 255) by (nonlinear_arith)
            requires
                d32 <= 255,
                da32 <= 255,
        ;
    }
    let v = s32 * sa32 * 255 + d32 * da32 * (255 - sa32);
    (v / 65025) as u8
}

/// Composites `src` over `dst`.
pub fn blend(src: Rgba, dst: Rgba) -> (r: Rgba)
    ensures
        r == blend_spec(src, dst),
{
    let sa = src.a as u32;
    let da = dst.a as u32;
    proof {
        assert(da * (255 - sa) <= 255 * (255 - sa)) by (nonlinear_arith)
            requires
                da <= 255,
                sa <= 255,
        ;
    }
    let a = ((sa * 255 + da * (255 - sa)) / 255) as u8;
    Rgba {
        r: blend_channel_exec(src.r, src.a, dst.r, dst.a),
        g: blend_channel_exec(src.g, src.a, dst.g, dst.a),
        b: blend_channel_exec(src.b, src.a, dst.b, dst.a),
        a,
    }
}

/// Width and height of the shaped block made of `lines`.
pub fn shaped_extent(lines: &Vec<LineMetrics>) -> (r: (u32, u128))
    ensures
        r.0 == shaped_width(lines@),
        r.1 == shaped_height(lines@),
        r.1 < 0x1_0000_0000_0000_0000_0000_0000u128,
{
    let mut w: u32 = 0;
    let mut h: u128 = 0;
    let mut i: usize = 0;
    while i < lines.len()
        invariant
            i <= lines@.len(),
            w == shaped_width(lines@.subrange(0, i as int)),
            h == shaped_height(lines@.subrange(0, i as int)),
            h <= i * 0xffff_ffff,
        decreases lines@.len() - i,
    {
        let l = lines[i];
        proof {
            assert(lines@.subrange(0, i + 1).drop_last() =~= lines@.subrange(0, i as int));
            assert(usize::MAX < 0x1_0000_0000_0000_0000u128);
        }
        if l.width > w {
            w = l.width;
        }
        h = h + l.height as u128;
        i = i + 1;
    }
    proof {
        assert(lines@.subrange(0, i as int) =~= lines@);
        assert(h < 0x1_0000_0000_0000_0000_0000_0000u128) by (nonlinear_arith)
            requires
                h <= i * 0xffff_ffff,
                i <= usize::MAX,
                usize::MAX <= u64::MAX,
        ;
    }
    (w, h)
}

/// Whether a sample is composited at all: non-zero alpha, exactly one pixel, at
/// non-negative offsets.
pub open spec fn eligible(u: Coverage) -> bool {
    u.color.a != 0 && u.w == 1 && u.h == 1 && u.x >= 0 && u.y >= 0
}

/// The raster column of sample `u` of the box `f`.
pub open spec fn target_x(f: Frame, u: Coverage) -> int {
    f.x + u.x
}

/// The raster row of sample `u` of the box `f` under vertical placement `place`,
/// for a block `th` pixels high.
pub open spec fn target_y(f: Frame, place: VAlign, th: nat, u: Coverage) -> int {
    match place {
        VAlign::Top => f.y + u.y,
        VAlign::Middle => f.y + u.y + (f.height / 2 - th / 2),
        VAlign::Bottom => f.y + u.y + (f.height - th),
    }
}

/// Whether `(x, y)` lies on a `width × height` raster.
pub open spec fn on_raster(x: int, y: int, width: int, height: int) -> bool {
    0 <= x < width && 0 <= y < height
}

/// The pixels after compositing the samples `units[0..n]` of the box `f` in order,
/// and the number of eligible samples that fell outside the raster.
pub open spec fn apply_units(
    pixels: Seq<Rgba>,
    width: int,
    height: int,
    f: Frame,
    place: VAlign,
    th: nat,
    units: Seq<Coverage>,
    n: int,
) -> (Seq<Rgba>, nat)
    decreases n,
{
    if n <= 0 {
        (pixels, 0)
    } else {
        let (p, c) = apply_units(pixels, width, height, f, place, th, units, n - 1);
        let u = units[n - 1];
        let x = target_x(f, u);
        let y = target_y(f, place, th, u);
        if !eligible(u) {
            (p, c)
        } else if on_raster(x, y, width, height) {
            (p.update(index_of(x, y, width), blend_spec(u.color, p[index_of(x, y, width)])), c)
        } else {
            (p, c + 1)
        }
    }
}

/// Composites every sample of `units` for the box `f` onto `raster`, in order, and
/// returns how many eligible samples fell outside it.
pub fn composite_units(
    raster: &mut Raster,
    f: Frame,
    place: VAlign,
    th: u128,
    units: &Vec<Coverage>,
) -> (count: u64)
    requires
        old(raster).wf(),
        th < 0x1_0000_0000_0000_0000_0000_0000u128,
    ensures
        final(raster).wf(),
        final(raster).width == old(raster).width,
        final(raster).height == old(raster).height,
        (final(raster).pixels@, count as nat) == apply_units(
            old(raster).pixels@,
            old(raster).width as int,
            old(raster).height as int,
            f,
            place,
            th as nat,
            units@,
            units@.len() as int,
        ),
{
    let ghost start = raster.pixels@;
    let mut count: u64 = 0;
    let mut i: usize = 0;
    while i < units.len()
        invariant
            raster.wf(),
            raster.width == old(raster).width,
            raster.height == old(raster).height,
            start == old(raster).pixels@,
            i <= units@.len(),
            count <= i,
            th < 0x1_0000_0000_0000_0000_0000_0000u128,
            (raster.pixels@, count as nat) == apply_units(
                start,
                raster.width as int,
                raster.height as int,
                f,
                place,
                th as nat,
                units@,
                i as int,
            ),
        decreases units@.len() - i,
    {
        let u = units[i];
        proof {
            assert(usize::MAX <= u64::MAX);
        }
        let ghost prev = raster.pixels@;
        if u.color.a != 0 && u.w == 1 && u.h == 1 && u.x >= 0 && u.y >= 0 {
            let x: i128 = f.x as i128 + u.x as i128;
            let bh = f.height as i128;
            let t = th as i128;
            let y: i128 = match place {
                VAlign::Top => f.y as i128 + u.y as i128,
                VAlign::Middle => f.y as i128 + u.y as i128 + (bh / 2 - t / 2),
                VAlign::Bottom => f.y as i128 + u.y as i128 + (bh - t),
            };
            if 0 <= x && x < raster.width as i128 && 0 <= y && y < raster.height as i128 {
                let dst = raster.get_pixel(x as u32, y as u32);
                raster.put_pixel(x as u32, y as u32, blend(u.color, dst));
                proof {
                    assert(target_x(f, u) == x);
                    assert(target_y(f, place, th as nat, u) == y);
                    assert(dst == prev[index_of(x as int, y as int, raster.width as int)]);
                }
            } else {
                count = count + 1;
            }
        }
        i = i + 1;
    }
    count
}

/// `pixels` (a buffer `width` pixels wide) after the fill of `p`, if it has one.
pub open spec fn fill_of(pixels: Seq<Rgba>, width: int, p: PlacedModel) -> Seq<Rgba> {
    match p.fill {
        Some(c) => filled(pixels, width, p.frame, c),
        None => pixels,
    }
}

/// The pixels after rendering one placed widget with its shaped block, and the
/// number of its samples that fell outside the raster; with `check` set, a
/// `TextOverflow` error when the block does not fit the widget's box.
pub open spec fn widget_spec(
    pixels: Seq<Rgba>,
    width: int,
    height: int,
    p: PlacedModel,
    s: ShapedModel,
    check: bool,
) -> Result<(Seq<Rgba>, nat), RenderError> {
    let base = fill_of(pixels, width, p);
    if check && overflows(p.frame, s.lines) {
        Err(
            RenderError::TextOverflow {
                shaped_width: shaped_width(s.lines) as u32,
                shaped_height: shaped_height(s.lines) as u128,
                box_width: p.frame.width,
                box_height: p.frame.height,
            },
        )
    } else {
        Ok(
            apply_units(
                base,
                width,
                height,
                p.frame,
                p.place,
                shaped_height(s.lines),
                s.units,
                s.units.len() as int,
            ),
        )
    }
}

/// Renders one placed widget: fills its box, validates the shaped block against
/// the box when `check` is set, then composites the block's samples.
pub fn render_widget(raster: &mut Raster, p: &Placed, s: &Shaped, check: bool) -> (r: Result<
    u64,
    RenderError,
>)
    requires
        old(raster).wf(),
    ensures
        final(raster).wf(),
        final(raster).width == old(raster).width,
        final(raster).height == old(raster).height,
        match widget_spec(
            old(raster).pixels@,
            old(raster).width as int,
            old(raster).height as int,
            p@,
            s@,
            check,
        ) {
            Ok((px, c)) => r matches Ok(k) && k as nat == c && final(raster).pixels@ == px,
            Err(e) => r == Err::<u64, RenderError>(e) && final(raster).pixels@ == fill_of(
                old(raster).pixels@,
                old(raster).width as int,
                p@,
            ),
        },
{
    match p.fill {
        Some(c) => raster.fill_box(p.frame, c),
        None => {},
    }
    let (sw, sh) = shaped_extent(&s.lines);
    if check && (sw > p.frame.width || sh > p.frame.height as u128) {
        return Err(
            RenderError::TextOverflow {
                shaped_width: sw,
                shaped_height: sh,
                box_width: p.frame.width,
                box_height: p.frame.height,
            },
        );
    }
    let c = composite_units(raster, p.frame, p.place, sh, &s.units);
    Ok(c)
}

/// The pixels after rendering `ps[0..n]` with their shaped blocks `ss[0..n]`, in
/// order, and the total number of samples that fell outside the raster; the first
/// error in that order, if any.
pub open spec fn render_upto(
    pixels: Seq<Rgba>,
    width: int,
    height: int,
    ps: Seq<PlacedModel>,
    ss: Seq<ShapedModel>,
    check: bool,
    n: int,
) -> Result<(Seq<Rgba>, nat), RenderError>
    decreases n,
{
    if n <= 0 {
        Ok((pixels, 0))
    } else {
        match render_upto(pixels, width, height, ps, ss, check, n - 1) {
            Err(e) => Err(e),
            Ok((px, total)) => match widget_spec(px, width, height, ps[n - 1], ss[n - 1], check) {
                Err(e) => Err(e),
                Ok((px2, c)) => Ok((px2, total + c)),
            },
        }
    }
}

/// The pixels after rendering `ps[0..n]` in order, stopping at the first widget
/// that fails: that widget's fill stays written, and nothing after it is.
pub open spec fn settled_pixels(
    pixels: Seq<Rgba>,
    width: int,
    height: int,
    ps: Seq<PlacedModel>,
    ss: Seq<ShapedModel>,
    check: bool,
    n: int,
) -> Seq<Rgba>
    decreases n,
{
    if n <= 0 {
        pixels
    } else {
        match render_upto(pixels, width, height, ps, ss, check, n - 1) {
            Err(_) => settled_pixels(pixels, width, height, ps, ss, check, n - 1),
            Ok((px, _)) => match widget_spec(px, width, height, ps[n - 1], ss[n - 1], check) {
                Ok((px2, _)) => px2,
                Err(_) => fill_of(px, width, ps[n - 1]),
            },
        }
    }
}

pub(crate) proof fn lemma_settled_stays(
    pixels: Seq<Rgba>,
    width: int,
    height: int,
    ps: Seq<PlacedModel>,
    ss: Seq<ShapedModel>,
    check: bool,
    n: int,
    m: int,
)
    requires
        0 <= n <= m,
        render_upto(pixels, width, height, ps, ss, check, n) is Err,
    ensures
        settled_pixels(pixels, width, height, ps, ss, check, m) == settled_pixels(
            pixels,
            width,
            height,
            ps,
            ss,
            check,
            n,
        ),
    decreases m - n,
{
    if m > n {
        lemma_settled_stays(pixels, width, height, ps, ss, check, n, m - 1);
        lemma_render_error_stays(pixels, width, height, ps, ss, check, n, m - 1);
    }
}

/// `n`, or `u32::MAX` when it does not fit.
pub open spec fn saturate(n: nat) -> u32 {
    if n > u32::MAX {
        u32::MAX
    } else {
        n as u32
    }
}

proof fn lemma_render_error_stays(
    pixels: Seq<Rgba>,
    width: int,
    height: int,
    ps: Seq<PlacedModel>,
    ss: Seq<ShapedModel>,
    check: bool,
    n: int,
    m: int,
)
    requires
        0 <= n <= m,
        render_upto(pixels, width, height, ps, ss, check, n) is Err,
    ensures
        render_upto(pixels, width, height, ps, ss, check, m) == render_upto(
            pixels,
            width,
            height,
            ps,
            ss,
            check,
            n,
        ),
    decreases m - n,
{
    if m > n {
        lemma_render_error_stays(pixels, width, height, ps, ss, check, n, m - 1);
    }
}

/// Renders the placed widgets `placed`, each with its shaped block `shaped[i]`, in
/// order onto `raster`. On success the count of samples that fell outside the
/// raster is returned. The first error aborts the call: the raster then holds the
/// output of the widgets before the failing one plus that widget's fill, and
/// nothing of it or of any later widget beyond that.
pub fn render(raster: &mut Raster, placed: &Vec<Placed>, shaped: &Vec<Shaped>, check: bool) -> (r:
    Result<ResultDrawText, RenderError>)
    requires
        old(raster).wf(),
        placed@.len() == shaped@.len(),
    ensures
        final(raster).wf(),
        final(raster).width == old(raster).width,
        final(raster).height == old(raster).height,
        final(raster).pixels@ == settled_pixels(
            old(raster).pixels@,
            old(raster).width as int,
            old(raster).height as int,
            placed_models(placed@),
            shaped_models(shaped@),
            check,
            placed@.len() as int,
        ),
        match render_upto(
            old(raster).pixels@,
            old(raster).width as int,
            old(raster).height as int,
            placed_models(placed@),
            shaped_models(shaped@),
            check,
            placed@.len() as int,
        ) {
            Ok((px, total)) => r == Ok::<ResultDrawText, RenderError>(
                ResultDrawText { count_pixel_out: saturate(total) },
            ) && final(raster).pixels@ == px,
            Err(e) => r == Err::<ResultDrawText, RenderError>(e),
        },
{
    let ghost start = raster.pixels@;
    let ghost ps = placed_models(placed@);
    let ghost ss = shaped_models(shaped@);
    let mut count: u32 = 0;
    let mut i: usize = 0;
    while i < placed.len()
        invariant
            raster.wf(),
            raster.width == old(raster).width,
            raster.height == old(raster).height,
            start == old(raster).pixels@,
            ps == placed_models(placed@),
            ss == shaped_models(shaped@),
            placed@.len() == shaped@.len(),
            i <= placed@.len(),
            render_upto(start, raster.width as int, raster.height as int, ps, ss, check, i as int) matches Ok(
                (px, total),
            ) && raster.pixels@ == px && count == saturate(total),
            raster.pixels@ == settled_pixels(start, raster.width as int, raster.height as int, ps, ss, check, i as int),
        decreases placed@.len() - i,
    {
        let ghost prev_total = render_upto(start, raster.width as int, raster.height as int, ps, ss, check, i as int)->Ok_0.1;
        proof {
            assert(ps[i as int] == placed@[i as int]@);
            assert(ss[i as int] == shaped@[i as int]@);
        }
        match render_widget(raster, &placed[i], &shaped[i], check) {
            Ok(c) => {
                proof {
                    assert(render_upto(start, raster.width as int, raster.height as int, ps, ss, check, i + 1)
                        == Ok::<(Seq<Rgba>, nat), RenderError>((raster.pixels@, prev_total + c as nat)));
                }
                let part: u32 = if c > u32::MAX as u64 {
                    u32::MAX
                } else {
                    c as u32
                };
                count = if (count as u64) + (part as u64) > u32::MAX as u64 {
                    u32::MAX
                } else {
                    count + part
                };
            },
            Err(e) => {
                proof {
                    lemma_render_error_stays(
                        start,
                        raster.width as int,
                        raster.height as int,
                        ps,
                        ss,
                        check,
                        i + 1,
                        placed@.len() as int,
                    );
                    lemma_settled_stays(
                        start,
                        raster.width as int,
                        raster.height as int,
                        ps,
                        ss,
                        check,
                        i + 1,
                        placed@.len() as int,
                    );
                }
                return Err(e);
            },
        }
        i = i + 1;
    }
    Ok(ResultDrawText { count_pixel_out: count })
}

} // verus!

use vstd::prelude::*;
use crate::color::{color_spec, Rgba};
use crate::compose::{
    apply_units, blend_spec, fill_of, overflows, lemma_settled_stays, settled_pixels, eligible, on_raster, render_upto, shaped_height, target_x,
    target_y, widget_spec, Coverage, ShapedModel,
};
use crate::error::RenderError;
use crate::layout::{box_spec, or_text, or_u32, placed_spec, runs_upto, subtree_spec, tree_upto};
use crate::raster::{filled, in_frame, index_of};
use crate::widget::{Frame, LayoutContext, PlacedModel, RunModel, VAlign, Widget};

verus! {

proof fn lemma_no_runs(w: Widget, n: int, font: u32, size: u32, color: Seq<char>, ctx: LayoutContext)
    requires
        0 <= n <= w.spans@.len(),
        forall|j: int| 0 <= j < w.spans@.len() ==> (#[trigger] w.spans@[j]).text@.len() == 0,
    ensures
        runs_upto(w, n, font, size, color, ctx) == Ok::<Seq<RunModel>, RenderError>(Seq::empty()),
    decreases n,
{
    if n > 0 {
        lemma_no_runs(w, n - 1, font, size, color, ctx);
    }
}

/// A widget with no fill, no text and no children, whose text color parses,
/// places one entry with nothing to draw, and rendering that entry with an empty shaped block leaves every pixel
/// as it was and counts no sample outside the raster.
pub proof fn law_empty_widget_is_noop(
    w: Widget,
    parent: Frame,
    font: u32,
    size: u32,
    color: Seq<char>,
    ctx: LayoutContext,
    pixels: Seq<Rgba>,
    width: int,
    height: int,
    check: bool,
)
    requires
        w.fill is None,
        w.children@.len() == 0,
        color_spec(or_text(w.color, color)) is Some,
        forall|j: int| 0 <= j < w.spans@.len() ==> (#[trigger] w.spans@[j]).text@.len() == 0,
    ensures
        tree_upto(seq![w], 1, parent, font, size, color, ctx) matches Ok(ps) && ps.len() == 1
            && render_upto(
            pixels,
            width,
            height,
            ps,
            seq![ShapedModel { lines: seq![], units: seq![] }],
            check,
            1,
        ) == Ok::<(Seq<Rgba>, nat), RenderError>((pixels, 0)),
{
    let ws = seq![w];
    lemma_no_runs(w, w.spans@.len() as int, font, size, color, ctx);
    let p = placed_spec(w, parent, font, size, color, ctx)->Ok_0;
    assert(tree_upto(w.children@, 0, p.frame, or_u32(w.font, font), or_u32(w.font_size, size), or_text(w.color, color), ctx)
        == Ok::<Seq<PlacedModel>, RenderError>(Seq::empty()));
    assert(seq![p] + Seq::<PlacedModel>::empty() =~= seq![p]);
    assert(ws[0] == w);
    assert(tree_upto(ws, 0, parent, font, size, color, ctx) == Ok::<Seq<PlacedModel>, RenderError>(Seq::empty()));
    assert(Seq::<PlacedModel>::empty() + seq![p] =~= seq![p]);
    assert(subtree_spec(w, parent, font, size, color, ctx) == Ok::<Seq<PlacedModel>, RenderError>(seq![p]));
    assert(tree_upto(ws, 1, parent, font, size, color, ctx) == Ok::<Seq<PlacedModel>, RenderError>(seq![p]));
    let ps = seq![p];
    assert(ps[0] == p);
    let s = ShapedModel { lines: seq![], units: seq![] };
    assert(shaped_height(s.lines) == 0);
    assert(seq![s][0] == s);
    assert(apply_units(pixels, width, height, p.frame, p.place, 0, s.units, 0) == (pixels, 0nat));
    assert(widget_spec(pixels, width, height, p, s, check) == Ok::<(Seq<Rgba>, nat), RenderError>((pixels, 0)));
    assert(render_upto(pixels, width, height, ps, seq![s], check, 0) == Ok::<(Seq<Rgba>, nat), RenderError>((pixels, 0)));
}

/// Filling the box `f` with `c` sets exactly the raster pixels inside `f` to `c`
/// and leaves every other pixel as it was.
pub proof fn law_fill_exact(pixels: Seq<Rgba>, width: int, height: int, f: Frame, c: Rgba, x: int, y: int)
    requires
        pixels.len() == width * height,
        0 <= x < width,
        0 <= y < height,
    ensures
        filled(pixels, width, f, c)[index_of(x, y, width)] == if in_frame(x, y, f) {
            c
        } else {
            pixels[index_of(x, y, width)]
        },
{
    let i = index_of(x, y, width);
    vstd::arithmetic::div_mod::lemma_fundamental_div_mod_converse(i, width, y, x);
    assert(0 <= y * width <= i < width * height) by (nonlinear_arith)
        requires
            0 <= x < width,
            0 <= y < height,
            i == y * width + x,
    ;
}

/// Blending an opaque color over any pixel yields exactly that color.
pub proof fn law_opaque_blend_replaces(src: Rgba, dst: Rgba)
    requires
        src.a == 255,
    ensures
        blend_spec(src, dst) == src,
{
    assert(src.r as int * 255 * 255 + dst.r as int * dst.a as int * 0 == src.r as int * 65025)
        by (nonlinear_arith);
    assert(src.g as int * 255 * 255 + dst.g as int * dst.a as int * 0 == src.g as int * 65025)
        by (nonlinear_arith);
    assert(src.b as int * 255 * 255 + dst.b as int * dst.a as int * 0 == src.b as int * 65025)
        by (nonlinear_arith);
    assert(dst.a as int * 0 == 0);
}

/// Blending a fully transparent color over an opaque pixel leaves it unchanged.
pub proof fn law_transparent_blend_over_opaque(src: Rgba, dst: Rgba)
    requires
        src.a == 0,
        dst.a == 255,
    ensures
        blend_spec(src, dst) == dst,
{
    assert(src.r as int * 0 * 255 + dst.r as int * 255 * 255 == dst.r as int * 65025)
        by (nonlinear_arith);
    assert(src.g as int * 0 * 255 + dst.g as int * 255 * 255 == dst.g as int * 65025)
        by (nonlinear_arith);
    assert(src.b as int * 0 * 255 + dst.b as int * 255 * 255 == dst.b as int * 65025)
        by (nonlinear_arith);
}

/// A coverage sample with zero alpha leaves the raster unchanged and is not
/// counted, wherever it falls.
pub proof fn law_transparent_sample_is_dropped(
    pixels: Seq<Rgba>,
    width: int,
    height: int,
    f: Frame,
    place: VAlign,
    th: nat,
    u: Coverage,
)
    requires
        u.color.a == 0,
    ensures
        apply_units(pixels, width, height, f, place, th, seq![u], 1) == (pixels, 0nat),
{
    assert(seq![u][0] == u);
    assert(!eligible(u));
    assert(apply_units(pixels, width, height, f, place, th, seq![u], 0) == (pixels, 0nat));
}

/// Under middle placement a sample lands `bh/2 − th/2` rows below its offset from
/// the box top, for a box `bh` high and a block `th` high.
pub proof fn law_middle_offset(
    pixels: Seq<Rgba>,
    width: int,
    height: int,
    f: Frame,
    th: nat,
    u: Coverage,
)
    requires
        eligible(u),
        on_raster(f.x + u.x, f.y + u.y + (f.height / 2 - th / 2), width, height),
    ensures
        target_y(f, VAlign::Middle, th, u) == f.y + u.y + (f.height / 2 - th / 2),
        ({
            let i = index_of(f.x + u.x, f.y + u.y + (f.height / 2 - th / 2), width);
            apply_units(pixels, width, height, f, VAlign::Middle, th, seq![u], 1) == (
                pixels.update(i, blend_spec(u.color, pixels[i])),
                0nat,
            )
        }),
{
    assert(seq![u][0] == u);
    assert(target_x(f, u) == f.x + u.x);
    assert(apply_units(pixels, width, height, f, VAlign::Middle, th, seq![u], 0) == (pixels, 0nat));
}

/// With validation on, a widget whose shaped block is one row taller than its box
/// aborts the render at that widget with `TextOverflow`, whatever follows it; the
/// raster then holds the output of the widgets before it and its fill, and no
/// sample of it nor anything of a later widget.
pub proof fn law_overflow_aborts(
    pixels: Seq<Rgba>,
    width: int,
    height: int,
    ps: Seq<PlacedModel>,
    ss: Seq<ShapedModel>,
    k: int,
    n: int,
)
    requires
        0 <= k < n,
        shaped_height(ss[k].lines) == ps[k].frame.height + 1,
        render_upto(pixels, width, height, ps, ss, true, k) is Ok,
    ensures
        render_upto(pixels, width, height, ps, ss, true, n) matches Err(e) && e matches RenderError::TextOverflow {
            shaped_height,
            box_height,
            ..
        } && shaped_height == box_height + 1 && box_height == ps[k].frame.height,
        settled_pixels(pixels, width, height, ps, ss, true, n) == fill_of(
            render_upto(pixels, width, height, ps, ss, true, k)->Ok_0.0,
            width,
            ps[k],
        ),
    decreases n - k,
{
    if n > k + 1 {
        law_overflow_aborts(pixels, width, height, ps, ss, k, n - 1);
    } else {
        assert(settled_pixels(pixels, width, height, ps, ss, true, n) == fill_of(
            render_upto(pixels, width, height, ps, ss, true, k)->Ok_0.0,
            width,
            ps[k],
        ));
    }
    lemma_settled_stays(pixels, width, height, ps, ss, true, k + 1, n);
}

/// A child is placed inside its parent's resolved content box: the entry after a
/// widget is its first child, and that child's box is resolved against the
/// parent's box, not against anything above it.
pub proof fn law_child_in_parent_box(
    w: Widget,
    parent: Frame,
    font: u32,
    size: u32,
    color: Seq<char>,
    ctx: LayoutContext,
)
    requires
        w.children@.len() > 0,
        subtree_spec(w, parent, font, size, color, ctx) is Ok,
    ensures
        ({
            let ps = subtree_spec(w, parent, font, size, color, ctx)->Ok_0;
            ps.len() >= 2 && ps[0].frame == box_spec(w, parent, ctx.policy)
                && ps[1].frame == box_spec(w.children@[0], ps[0].frame, ctx.policy)
        }),
{
    let p = placed_spec(w, parent, font, size, color, ctx)->Ok_0;
    let cs = w.children@;
    let (f2, s2, c2) = (or_u32(w.font, font), or_u32(w.font_size, size), or_text(w.color, color));
    lemma_tree_prefix(cs, 1, cs.len() as int, p.frame, f2, s2, c2, ctx);
    let first = tree_upto(cs, 1, p.frame, f2, s2, c2, ctx)->Ok_0;
    assert(tree_upto(cs, 0, p.frame, f2, s2, c2, ctx) == Ok::<Seq<PlacedModel>, RenderError>(Seq::empty()));
    let sub = subtree_spec(cs[0], p.frame, f2, s2, c2, ctx)->Ok_0;
    assert(first =~= sub);
    let q = placed_spec(cs[0], p.frame, f2, s2, c2, ctx)->Ok_0;
    assert(sub[0] == q);
}

/// When the placement of `ws[0..m]` succeeds, that of `ws[0..n]` for `n <= m`
/// succeeds too, and is a prefix of it.
proof fn lemma_tree_prefix(
    ws: Seq<Widget>,
    n: int,
    m: int,
    parent: Frame,
    font: u32,
    size: u32,
    color: Seq<char>,
    ctx: LayoutContext,
)
    requires
        0 <= n <= m <= ws.len(),
        tree_upto(ws, m, parent, font, size, color, ctx) is Ok,
    ensures
        tree_upto(ws, n, parent, font, size, color, ctx) matches Ok(a) && a.len() <= tree_upto(
            ws,
            m,
            parent,
            font,
            size,
            color,
            ctx,
        )->Ok_0.len() && a == tree_upto(ws, m, parent, font, size, color, ctx)->Ok_0.subrange(
            0,
            a.len() as int,
        ),
    decreases m - n,
{
    if m > n {
        lemma_tree_prefix(ws, n, m - 1, parent, font, size, color, ctx);
        let a = tree_upto(ws, n, parent, font, size, color, ctx)->Ok_0;
        let b = tree_upto(ws, m - 1, parent, font, size, color, ctx)->Ok_0;
        let c = tree_upto(ws, m, parent, font, size, color, ctx)->Ok_0;
        assert(c.subrange(0, b.len() as int) =~= b);
        assert(c.subrange(0, a.len() as int) =~= b.subrange(0, a.len() as int));
    } else {
        let a = tree_upto(ws, n, parent, font, size, color, ctx)->Ok_0;
        assert(a.subrange(0, a.len() as int) =~= a);
    }
}

/// Whether pixel `i` is the target of one of the samples `units[0..n]` of the box
/// `f` that is composited onto a `width × height` raster.
pub open spec fn targeted(
    f: Frame,
    place: VAlign,
    th: nat,
    units: Seq<Coverage>,
    n: int,
    width: int,
    height: int,
    i: int,
) -> bool {
    exists|j: int|
        0 <= j < n && #[trigger] eligible(units[j]) && on_raster(
            target_x(f, units[j]),
            target_y(f, place, th, units[j]),
            width,
            height,
        ) && index_of(target_x(f, units[j]), target_y(f, place, th, units[j]), width) == i
}

/// An opaque pixel darker than white in every channel.
pub open spec fn darker_than_white(c: Rgba) -> bool {
    c.r < 255 && c.g < 255 && c.b < 255 && c.a == 255
}

pub open spec fn white() -> Rgba {
    Rgba { r: 255, g: 255, b: 255, a: 255 }
}

proof fn lemma_black_over_opaque(src: Rgba, dst: Rgba)
    requires
        src.r == 0 && src.g == 0 && src.b == 0,
        src.a > 0,
        dst.a == 255,
    ensures
        darker_than_white(blend_spec(src, dst)),
{
    let sa = src.a as int;
    assert(dst.r as int * 255 * (255 - sa) < 65025 * 255) by (nonlinear_arith)
        requires
            0 <= dst.r <= 255,
            0 < sa <= 255,
    ;
    assert(dst.g as int * 255 * (255 - sa) < 65025 * 255) by (nonlinear_arith)
        requires
            0 <= dst.g <= 255,
            0 < sa <= 255,
    ;
    assert(dst.b as int * 255 * (255 - sa) < 65025 * 255) by (nonlinear_arith)
        requires
            0 <= dst.b <= 255,
            0 < sa <= 255,
    ;
    assert(0 * sa * 255 == 0);
    assert((sa * 255 + 255 * (255 - sa)) / 255 == 255) by (nonlinear_arith);
}

proof fn lemma_black_samples(
    pixels: Seq<Rgba>,
    width: int,
    height: int,
    f: Frame,
    place: VAlign,
    th: nat,
    units: Seq<Coverage>,
    n: int,
)
    requires
        0 <= n <= units.len(),
        pixels.len() == width * height,
        forall|i: int| 0 <= i < pixels.len() ==> pixels[i] == white(),
        forall|j: int|
            0 <= j < units.len() ==> (#[trigger] units[j]).color.r == 0 && units[j].color.g == 0
                && units[j].color.b == 0,
    ensures
        apply_units(pixels, width, height, f, place, th, units, n).0.len() == pixels.len(),
        forall|i: int|
            0 <= i < pixels.len() ==> if targeted(f, place, th, units, n, width, height, i) {
                darker_than_white(#[trigger] apply_units(pixels, width, height, f, place, th, units, n).0[i])
            } else {
                apply_units(pixels, width, height, f, place, th, units, n).0[i] == white()
            },
    decreases n,
{
    if n > 0 {
        lemma_black_samples(pixels, width, height, f, place, th, units, n - 1);
        let p = apply_units(pixels, width, height, f, place, th, units, n - 1).0;
        let q = apply_units(pixels, width, height, f, place, th, units, n).0;
        let u = units[n - 1];
        let x = target_x(f, u);
        let y = target_y(f, place, th, u);
        let hit = eligible(u) && on_raster(x, y, width, height);
        let k = index_of(x, y, width);
        if hit {
            assert(0 <= k < width * height) by (nonlinear_arith)
                requires
                    0 <= x < width,
                    0 <= y < height,
                    k == y * width + x,
            ;
        }
        assert forall|i: int| 0 <= i < pixels.len() implies if targeted(
            f,
            place,
            th,
            units,
            n,
            width,
            height,
            i,
        ) {
            darker_than_white(#[trigger] q[i])
        } else {
            q[i] == white()
        } by {
            if hit && i == k {
                assert(eligible(units[n - 1]));
                assert(targeted(f, place, th, units, n, width, height, i));
                lemma_black_over_opaque(u.color, p[k]);
            } else {
                assert(q[i] == p[i]);
                if targeted(f, place, th, units, n, width, height, i) {
                    let j = choose|j: int|
                        0 <= j < n && #[trigger] eligible(units[j]) && on_raster(
                            target_x(f, units[j]),
                            target_y(f, place, th, units[j]),
                            width,
                            height,
                        ) && index_of(target_x(f, units[j]), target_y(f, place, th, units[j]), width) == i;
                    assert(j != n - 1);
                    assert(targeted(f, place, th, units, n - 1, width, height, i));
                } else {
                    if targeted(f, place, th, units, n - 1, width, height, i) {
                        let j = choose|j: int|
                            0 <= j < n - 1 && #[trigger] eligible(units[j]) && on_raster(
                                target_x(f, units[j]),
                                target_y(f, place, th, units[j]),
                                width,
                                height,
                            ) && index_of(target_x(f, units[j]), target_y(f, place, th, units[j]), width)
                                == i;
                        assert(targeted(f, place, th, units, n, width, height, i));
                    }
                }
            }
        }
    }
}

/// A white fill over the whole raster followed by a text widget whose samples are
/// all black renders without error; afterwards every pixel that a composited
/// sample targets is opaque and darker than white, and every other pixel is
/// opaque white.
pub proof fn law_white_background_dark_glyphs(
    pixels: Seq<Rgba>,
    width: int,
    height: int,
    bg: PlacedModel,
    text: PlacedModel,
    glyphs: ShapedModel,
    check: bool,
)
    requires
        pixels.len() == width * height,
        width > 0,
        bg.fill == Some(white()),
        bg.frame.x == 0 && bg.frame.y == 0,
        bg.frame.width >= width && bg.frame.height >= height,
        text.fill is None,
        !(check && overflows(text.frame, glyphs.lines)),
        forall|j: int|
            0 <= j < glyphs.units.len() ==> (#[trigger] glyphs.units[j]).color.r == 0
                && glyphs.units[j].color.g == 0 && glyphs.units[j].color.b == 0,
    ensures
        render_upto(
            pixels,
            width,
            height,
            seq![bg, text],
            seq![ShapedModel { lines: seq![], units: seq![] }, glyphs],
            check,
            2,
        ) matches Ok((px, _)) && px.len() == pixels.len() && forall|i: int|
            0 <= i < px.len() ==> if targeted(
                text.frame,
                text.place,
                shaped_height(glyphs.lines),
                glyphs.units,
                glyphs.units.len() as int,
                width,
                height,
                i,
            ) {
                darker_than_white(#[trigger] px[i])
            } else {
                px[i] == white()
            },
{
    let empty = ShapedModel { lines: seq![], units: seq![] };
    let ps = seq![bg, text];
    let ss = seq![empty, glyphs];
    let base = filled(pixels, width, bg.frame, white());
    assert forall|i: int| 0 <= i < base.len() implies base[i] == white() by {
        vstd::arithmetic::div_mod::lemma_fundamental_div_mod(i, width);
        vstd::arithmetic::div_mod::lemma_mod_bound(i, width);
        assert(i / width < height) by (nonlinear_arith)
            requires
                i == width * (i / width) + i % width,
                0 <= i % width,
                i < width * height,
                width > 0,
        ;
        assert(i / width >= 0) by (nonlinear_arith)
            requires
                i >= 0,
                width > 0,
        ;
    }
    assert(ps[0] == bg && ps[1] == text && ss[0] == empty && ss[1] == glyphs);
    assert(apply_units(base, width, height, bg.frame, bg.place, 0, empty.units, 0) == (base, 0nat));
    assert(widget_spec(pixels, width, height, bg, empty, check) == Ok::<(Seq<Rgba>, nat), RenderError>((base, 0)));
    assert(render_upto(pixels, width, height, ps, ss, check, 0) == Ok::<(Seq<Rgba>, nat), RenderError>((pixels, 0)));
    assert(render_upto(pixels, width, height, ps, ss, check, 1) == Ok::<(Seq<Rgba>, nat), RenderError>((base, 0)));
    lemma_black_samples(
        base,
        width,
        height,
        text.frame,
        text.place,
        shaped_height(glyphs.lines),
        glyphs.units,
        glyphs.units.len() as int,
    );
}

} // verus!

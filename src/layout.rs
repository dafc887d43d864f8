use vstd::prelude::*;
use crate::color::{color_spec, parse_color, Rgba};
use crate::error::RenderError;
use crate::units::{clamp_coord, clamp_to_coord, fine_spec, resolve, resolve_fine, resolve_spec, UnitPolicy};
use crate::widget::{
    placed_models, run_models, Frame, LayoutContext, Placed, PlacedModel, Run, RunModel, Style,
    Texts, Widget, DEFAULT_LINE_HEIGHT,
};

verus! {

/// `v` when it is set, else `d`.
pub open spec fn or_u32(v: Option<u32>, d: u32) -> u32 {
    match v {
        Some(x) => x,
        None => d,
    }
}

/// The text of `v` when it is set, else `d`.
pub open spec fn or_text(v: Option<String>, d: Seq<char>) -> Seq<char> {
    match v {
        Some(s) => s@,
        None => d,
    }
}

/// The content box of `w` inside the parent content box `parent`: margins are
/// resolved against the parent extent and taken off the resolved size; a size
/// left unset fills the parent extent. Results are clamped to the coordinate range.
pub open spec fn box_spec(w: Widget, parent: Frame, policy: UnitPolicy) -> Frame {
    let pw = parent.width as nat;
    let ph = parent.height as nat;
    let ml = resolve_spec(or_u32(w.margin_left, 0) as nat, pw, policy);
    let mt = resolve_spec(or_u32(w.margin_top, 0) as nat, ph, policy);
    let mr = resolve_spec(or_u32(w.margin_right, 0) as nat, pw, policy);
    let mb = resolve_spec(or_u32(w.margin_bottom, 0) as nat, ph, policy);
    let bw = match w.w {
        Some(v) => resolve_spec(v as nat, pw, policy),
        None => pw,
    };
    let bh = match w.h {
        Some(v) => resolve_spec(v as nat, ph, policy),
        None => ph,
    };
    Frame {
        x: clamp_coord(resolve_spec(or_u32(w.x, 0) as nat, pw, policy) + parent.x + ml) as u32,
        y: clamp_coord(resolve_spec(or_u32(w.y, 0) as nat, ph, policy) + parent.y + mt) as u32,
        width: clamp_coord(bw - ml - mr) as u32,
        height: clamp_coord(bh - mt - mb) as u32,
    }
}

/// Resolves the content box of `w` inside `parent`.
pub fn resolve_box(w: &Widget, parent: Frame, policy: UnitPolicy) -> (r: Frame)
    ensures
        r == box_spec(*w, parent, policy),
{
    let pw = parent.width;
    let ph = parent.height;
    let ml = resolve(w.margin_left.unwrap_or(0), pw, policy);
    let mt = resolve(w.margin_top.unwrap_or(0), ph, policy);
    let mr = resolve(w.margin_right.unwrap_or(0), pw, policy);
    let mb = resolve(w.margin_bottom.unwrap_or(0), ph, policy);
    let bw = match w.w {
        Some(v) => resolve(v, pw, policy),
        None => pw as u64,
    };
    let bh = match w.h {
        Some(v) => resolve(v, ph, policy),
        None => ph as u64,
    };
    let x = resolve(w.x.unwrap_or(0), pw, policy);
    let y = resolve(w.y.unwrap_or(0), ph, policy);
    Frame {
        x: clamp_to_coord(x as i128 + parent.x as i128 + ml as i128),
        y: clamp_to_coord(y as i128 + parent.y as i128 + mt as i128),
        width: clamp_to_coord(bw as i128 - ml as i128 - mr as i128),
        height: clamp_to_coord(bh as i128 - mt as i128 - mb as i128),
    }
}

/// A font id resolved against a font table of `count` entries: ids out of range
/// fall back to the first entry.
pub open spec fn font_spec(id: u32, count: usize) -> nat {
    if (id as nat) < count {
        id as nat
    } else {
        0
    }
}

/// Resolves a font id against a font table of `count` entries.
pub fn resolve_font(id: u32, count: usize) -> (r: usize)
    ensures
        r == font_spec(id, count),
{
    if (id as u64) < (count as u64) {
        id as usize
    } else {
        0
    }
}

/// The run built from span `sp` of widget `w`, which inherits `font`, `size` and
/// `color`: each attribute is taken from the span, else the widget, else the
/// inherited style. The font size is resolved against the raster width and the
/// line height is that size times the widget's multiplier.
pub open spec fn run_spec(
    sp: Texts,
    w: Widget,
    font: u32,
    size: u32,
    color: Seq<char>,
    ctx: LayoutContext,
) -> Result<RunModel, RenderError> {
    let px = clamp_coord(
        fine_spec(or_u32(sp.font_size, or_u32(w.font_size, size)) as nat, ctx.raster_width as nat, ctx.policy) as int,
    );
    match color_spec(or_text(sp.color, or_text(w.color, color))) {
        None => Err(RenderError::InvalidColor),
        Some(c) => Ok(
            RunModel {
                text: sp.text@,
                font: font_spec(or_u32(sp.font, or_u32(w.font, font)), ctx.font_count),
                size: px,
                line_height: px * or_u32(w.line_height, DEFAULT_LINE_HEIGHT) as nat / 100,
                color: c,
            },
        ),
    }
}

/// The runs of the first `n` spans of `w`; spans with empty text give no run.
/// The first span whose color does not parse makes it an error.
pub open spec fn runs_upto(
    w: Widget,
    n: int,
    font: u32,
    size: u32,
    color: Seq<char>,
    ctx: LayoutContext,
) -> Result<Seq<RunModel>, RenderError>
    decreases n,
{
    if n <= 0 {
        Ok(Seq::empty())
    } else {
        match runs_upto(w, n - 1, font, size, color, ctx) {
            Err(e) => Err(e),
            Ok(rs) => {
                let sp = w.spans@[n - 1];
                if sp.text@.len() == 0 {
                    Ok(rs)
                } else {
                    match run_spec(sp, w, font, size, color, ctx) {
                        Err(e) => Err(e),
                        Ok(r) => Ok(rs.push(r)),
                    }
                }
            },
        }
    }
}

proof fn lemma_runs_error_stays(
    w: Widget,
    n: int,
    m: int,
    font: u32,
    size: u32,
    color: Seq<char>,
    ctx: LayoutContext,
)
    requires
        0 <= n <= m,
        runs_upto(w, n, font, size, color, ctx) is Err,
    ensures
        runs_upto(w, m, font, size, color, ctx) == runs_upto(w, n, font, size, color, ctx),
    decreases m - n,
{
    if m > n {
        lemma_runs_error_stays(w, n, m - 1, font, size, color, ctx);
    }
}

/// Builds the run of span `sp` of widget `w` under the inherited `style`.
pub fn build_run(sp: &Texts, w: &Widget, style: &Style, ctx: LayoutContext) -> (r: Result<
    Run,
    RenderError,
>)
    ensures
        match run_spec(*sp, *w, style.font, style.font_size, style.color@, ctx) {
            Ok(m) => r matches Ok(run) && run@ == m,
            Err(e) => r == Err::<Run, RenderError>(e),
        },
{
    let size = match sp.font_size {
        Some(v) => v,
        None => match w.font_size {
            Some(v) => v,
            None => style.font_size,
        },
    };
    let px = clamp_to_coord(resolve_fine(size, ctx.raster_width, ctx.policy) as i128);
    let mult = match w.line_height {
        Some(v) => v,
        None => DEFAULT_LINE_HEIGHT,
    };
    proof {
        assert(px as nat * mult as nat <= u32::MAX as nat * u32::MAX as nat) by (nonlinear_arith)
            requires
                px <= u32::MAX,
                mult <= u32::MAX,
        ;
    }
    let line_height = (px as u64) * (mult as u64) / 100;
    let font = match sp.font {
        Some(v) => v,
        None => match w.font {
            Some(v) => v,
            None => style.font,
        },
    };
    let text_color: &String = match &sp.color {
        Some(c) => c,
        None => match &w.color {
            Some(c) => c,
            None => &style.color,
        },
    };
    match parse_color(text_color.as_str()) {
        None => Err(RenderError::InvalidColor),
        Some(c) => Ok(
            Run {
                text: sp.text.clone(),
                font: resolve_font(font, ctx.font_count),
                size: px as u64,
                line_height,
                color: c,
            },
        ),
    }
}

/// Builds the runs of every non-empty span of `w`, in order.
pub fn build_runs(w: &Widget, style: &Style, ctx: LayoutContext) -> (r: Result<
    Vec<Run>,
    RenderError,
>)
    ensures
        match runs_upto(*w, w.spans@.len() as int, style.font, style.font_size, style.color@, ctx) {
            Ok(ms) => r matches Ok(v) && run_models(v@) == ms,
            Err(e) => r == Err::<Vec<Run>, RenderError>(e),
        },
{
    let mut runs: Vec<Run> = Vec::new();
    let mut i: usize = 0;
    proof {
        assert(run_models(runs@) =~= Seq::<RunModel>::empty());
    }
    while i < w.spans.len()
        invariant
            i <= w.spans@.len(),
            runs_upto(*w, i as int, style.font, style.font_size, style.color@, ctx) == Ok::<
                Seq<RunModel>,
                RenderError,
            >(run_models(runs@)),
        decreases w.spans@.len() - i,
    {
        let sp = &w.spans[i];
        if sp.text.unicode_len() > 0 {
            match build_run(sp, w, style, ctx) {
                Ok(run) => {
                    let ghost before = runs@;
                    let ghost m = run@;
                    runs.push(run);
                    proof {
                        assert(run_models(runs@) =~= run_models(before).push(m));
                    }
                },
                Err(e) => {
                    proof {
                        lemma_runs_error_stays(
                            *w,
                            i + 1,
                            w.spans@.len() as int,
                            style.font,
                            style.font_size,
                            style.color@,
                            ctx,
                        );
                    }
                    return Err(e);
                },
            }
        }
        i = i + 1;
    }
    Ok(runs)
}

/// The widget `w` placed inside `parent` with inherited `font`, `size` and `color`:
/// its content box, its fill color and its runs. Its own text color (set on the
/// widget, else inherited) and its fill color must both parse, in that order.
pub open spec fn placed_spec(
    w: Widget,
    parent: Frame,
    font: u32,
    size: u32,
    color: Seq<char>,
    ctx: LayoutContext,
) -> Result<PlacedModel, RenderError> {
    let fill: Result<Option<Rgba>, RenderError> = if color_spec(or_text(w.color, color)) is None {
        Err(RenderError::InvalidColor)
    } else {
        match w.fill {
        None => Ok(None),
        Some(f) => match color_spec(f@) {
            Some(c) => Ok(Some(c)),
            None => Err(RenderError::InvalidColor),
        },
        }
    };
    match fill {
        Err(e) => Err(e),
        Ok(fill) => match runs_upto(w, w.spans@.len() as int, font, size, color, ctx) {
            Err(e) => Err(e),
            Ok(runs) => Ok(
                PlacedModel {
                    frame: box_spec(w, parent, ctx.policy),
                    fill,
                    runs,
                    align: w.align,
                    place: w.place,
                },
            ),
        },
    }
}

/// The widgets `ws[0..n]` and all their descendants placed in depth-first
/// pre-order (each widget before its children, children in declaration order);
/// the first error in that order, if any.
pub open spec fn tree_upto(
    ws: Seq<Widget>,
    n: int,
    parent: Frame,
    font: u32,
    size: u32,
    color: Seq<char>,
    ctx: LayoutContext,
) -> Result<Seq<PlacedModel>, RenderError>
    decreases ws, n,
{
    if n <= 0 || n > ws.len() {
        Ok(Seq::empty())
    } else {
        match tree_upto(ws, n - 1, parent, font, size, color, ctx) {
            Err(e) => Err(e),
            Ok(acc) => match subtree_spec(ws[n - 1], parent, font, size, color, ctx) {
                Err(e) => Err(e),
                Ok(sub) => Ok(acc + sub),
            },
        }
    }
}

/// `w` followed by its descendants; the children are placed inside `w`'s content
/// box and inherit `w`'s own resolved font, font size and color.
pub open spec fn subtree_spec(
    w: Widget,
    parent: Frame,
    font: u32,
    size: u32,
    color: Seq<char>,
    ctx: LayoutContext,
) -> Result<Seq<PlacedModel>, RenderError>
    decreases w, 0int,
{
    match placed_spec(w, parent, font, size, color, ctx) {
        Err(e) => Err(e),
        Ok(p) => match tree_upto(
            w.children@,
            w.children@.len() as int,
            p.frame,
            or_u32(w.font, font),
            or_u32(w.font_size, size),
            or_text(w.color, color),
            ctx,
        ) {
            Err(e) => Err(e),
            Ok(cs) => Ok(seq![p] + cs),
        },
    }
}

proof fn lemma_tree_error_stays(
    ws: Seq<Widget>,
    n: int,
    m: int,
    parent: Frame,
    font: u32,
    size: u32,
    color: Seq<char>,
    ctx: LayoutContext,
)
    requires
        0 <= n <= m <= ws.len(),
        tree_upto(ws, n, parent, font, size, color, ctx) is Err,
    ensures
        tree_upto(ws, m, parent, font, size, color, ctx) == tree_upto(
            ws,
            n,
            parent,
            font,
            size,
            color,
            ctx,
        ),
    decreases m - n,
{
    if m > n {
        lemma_tree_error_stays(ws, n, m - 1, parent, font, size, color, ctx);
    }
}

/// Resolves the box, fill and runs of one widget.
pub fn place_widget(w: &Widget, parent: Frame, style: &Style, ctx: LayoutContext) -> (r: Result<
    Placed,
    RenderError,
>)
    ensures
        match placed_spec(*w, parent, style.font, style.font_size, style.color@, ctx) {
            Ok(m) => r matches Ok(p) && p@ == m,
            Err(e) => r == Err::<Placed, RenderError>(e),
        },
{
    let text_color: &String = match &w.color {
        Some(c) => c,
        None => &style.color,
    };
    if parse_color(text_color.as_str()).is_none() {
        return Err(RenderError::InvalidColor);
    }
    let fill = match &w.fill {
        None => None,
        Some(f) => match parse_color(f.as_str()) {
            Some(c) => Some(c),
            None => return Err(RenderError::InvalidColor),
        },
    };
    let runs = match build_runs(w, style, ctx) {
        Ok(runs) => runs,
        Err(e) => return Err(e),
    };
    Ok(Placed { frame: resolve_box(w, parent, ctx.policy), fill, runs, align: w.align, place: w.place })
}

/// The entries placed from `ws[0..n]` before the first error in pre-order (all of
/// them when there is none).
pub open spec fn tree_part(
    ws: Seq<Widget>,
    n: int,
    parent: Frame,
    font: u32,
    size: u32,
    color: Seq<char>,
    ctx: LayoutContext,
) -> Seq<PlacedModel>
    decreases ws, n,
{
    if n <= 0 || n > ws.len() {
        Seq::empty()
    } else {
        match tree_upto(ws, n - 1, parent, font, size, color, ctx) {
            Err(_) => tree_part(ws, n - 1, parent, font, size, color, ctx),
            Ok(acc) => acc + subtree_part(ws[n - 1], parent, font, size, color, ctx),
        }
    }
}

/// The entries placed from `w` and its descendants before the first error in
/// pre-order (all of them when there is none).
pub open spec fn subtree_part(
    w: Widget,
    parent: Frame,
    font: u32,
    size: u32,
    color: Seq<char>,
    ctx: LayoutContext,
) -> Seq<PlacedModel>
    decreases w, 0int,
{
    match placed_spec(w, parent, font, size, color, ctx) {
        Err(_) => Seq::empty(),
        Ok(p) => seq![p] + tree_part(
            w.children@,
            w.children@.len() as int,
            p.frame,
            or_u32(w.font, font),
            or_u32(w.font_size, size),
            or_text(w.color, color),
            ctx,
        ),
    }
}

proof fn lemma_part_stays(
    ws: Seq<Widget>,
    n: int,
    m: int,
    parent: Frame,
    font: u32,
    size: u32,
    color: Seq<char>,
    ctx: LayoutContext,
)
    requires
        0 <= n <= m <= ws.len(),
        tree_upto(ws, n, parent, font, size, color, ctx) is Err,
    ensures
        tree_part(ws, m, parent, font, size, color, ctx) == tree_part(ws, n, parent, font, size, color, ctx),
    decreases m - n,
{
    if m > n {
        lemma_part_stays(ws, n, m - 1, parent, font, size, color, ctx);
        lemma_tree_error_stays(ws, n, m - 1, parent, font, size, color, ctx);
    }
}

/// Places `w` and its descendants, appending them to `out` in pre-order up to the
/// first error.
fn layout_subtree(
    w: &Widget,
    parent: Frame,
    style: &Style,
    ctx: LayoutContext,
    out: &mut Vec<Placed>,
) -> (r: Result<(), RenderError>)
    ensures
        placed_models(final(out)@) == placed_models(old(out)@) + subtree_part(*w, parent, style.font, style.font_size, style.color@, ctx),
        match subtree_spec(*w, parent, style.font, style.font_size, style.color@, ctx) {
            Ok(s) => r is Ok && s == subtree_part(*w, parent, style.font, style.font_size, style.color@, ctx),
            Err(e) => r == Err::<(), RenderError>(e),
        },
    decreases *w, 0int,
{
    let p = match place_widget(w, parent, style, ctx) {
        Ok(p) => p,
        Err(e) => {
            proof {
                assert(placed_models(out@) + Seq::<PlacedModel>::empty() =~= placed_models(out@));
            }
            return Err(e);
        },
    };
    let frame = p.frame;
    let ghost before = out@;
    let ghost pm = p@;
    out.push(p);
    proof {
        assert(placed_models(out@) =~= placed_models(before).push(pm));
    }
    let child_style = Style {
        font: match w.font {
            Some(v) => v,
            None => style.font,
        },
        font_size: match w.font_size {
            Some(v) => v,
            None => style.font_size,
        },
        color: match &w.color {
            Some(c) => c.clone(),
            None => style.color.clone(),
        },
    };
    let r = layout_widgets(&w.children, frame, &child_style, ctx, out);
    proof {
        let cs = tree_part(
            w.children@,
            w.children@.len() as int,
            frame,
            child_style.font,
            child_style.font_size,
            child_style.color@,
            ctx,
        );
        assert(placed_models(before) + (seq![pm] + cs) =~= placed_models(before).push(pm) + cs);
    }
    r
}

/// Places the widgets `ws` and their descendants inside `parent`, appending them
/// to `out` in pre-order up to the first error.
fn layout_widgets(
    ws: &Vec<Widget>,
    parent: Frame,
    style: &Style,
    ctx: LayoutContext,
    out: &mut Vec<Placed>,
) -> (r: Result<(), RenderError>)
    ensures
        placed_models(final(out)@) == placed_models(old(out)@) + tree_part(ws@, ws@.len() as int, parent, style.font, style.font_size, style.color@, ctx),
        match tree_upto(ws@, ws@.len() as int, parent, style.font, style.font_size, style.color@, ctx) {
            Ok(s) => r is Ok && s == tree_part(ws@, ws@.len() as int, parent, style.font, style.font_size, style.color@, ctx),
            Err(e) => r == Err::<(), RenderError>(e),
        },
    decreases ws@, 1int,
{
    let ghost start = placed_models(out@);
    let mut i: usize = 0;
    proof {
        assert(start + Seq::<PlacedModel>::empty() =~= start);
    }
    while i < ws.len()
        invariant
            i <= ws@.len(),
            start == placed_models(old(out)@),
            tree_upto(ws@, i as int, parent, style.font, style.font_size, style.color@, ctx) matches Ok(
                acc,
            ) && placed_models(out@) == start + acc
                && acc == tree_part(ws@, i as int, parent, style.font, style.font_size, style.color@, ctx),
        decreases ws@.len() - i,
    {
        let ghost acc = tree_upto(ws@, i as int, parent, style.font, style.font_size, style.color@, ctx)->Ok_0;
        let ghost mid = placed_models(out@);
        let ghost part = subtree_part(ws@[i as int], parent, style.font, style.font_size, style.color@, ctx);
        let r = layout_subtree(&ws[i], parent, style, ctx, out);
        proof {
            assert(start + (acc + part) =~= mid + part);
        }
        match r {
            Ok(()) => {},
            Err(e) => {
                proof {
                    lemma_tree_error_stays(
                        ws@,
                        i + 1,
                        ws@.len() as int,
                        parent,
                        style.font,
                        style.font_size,
                        style.color@,
                        ctx,
                    );
                    lemma_part_stays(
                        ws@,
                        i + 1,
                        ws@.len() as int,
                        parent,
                        style.font,
                        style.font_size,
                        style.color@,
                        ctx,
                    );
                }
                return Err(e);
            },
        }
        i = i + 1;
    }
    Ok(())
}

/// Places a whole widget tree, the root widgets `widgets` inside `root` with the
/// caller's default `style`: one entry per widget, in depth-first pre-order, or the
/// first error in that order.
pub fn layout(widgets: &Vec<Widget>, root: Frame, style: &Style, ctx: LayoutContext) -> (r: Result<
    Vec<Placed>,
    RenderError,
>)
    ensures
        match tree_upto(
            widgets@,
            widgets@.len() as int,
            root,
            style.font,
            style.font_size,
            style.color@,
            ctx,
        ) {
            Ok(s) => r matches Ok(v) && placed_models(v@) == s,
            Err(e) => r == Err::<Vec<Placed>, RenderError>(e),
        },
{
    let (out, err) = layout_until_error(widgets, root, style, ctx);
    match err {
        None => Ok(out),
        Some(e) => Err(e),
    }
}

/// Like `layout`, but also hands back the entries placed before the first error,
/// so that a caller can render them before reporting it: the entries in
/// pre-order up to the first error, and that error if there is one.
pub fn layout_until_error(widgets: &Vec<Widget>, root: Frame, style: &Style, ctx: LayoutContext) -> (r: (
    Vec<Placed>,
    Option<RenderError>,
))
    ensures
        placed_models(r.0@) == tree_part(
            widgets@,
            widgets@.len() as int,
            root,
            style.font,
            style.font_size,
            style.color@,
            ctx,
        ),
        match tree_upto(
            widgets@,
            widgets@.len() as int,
            root,
            style.font,
            style.font_size,
            style.color@,
            ctx,
        ) {
            Ok(s) => r.1 is None && placed_models(r.0@) == s,
            Err(e) => r.1 == Some(e),
        },
{
    let mut out: Vec<Placed> = Vec::new();
    proof {
        assert(placed_models(out@) =~= Seq::<PlacedModel>::empty());
    }
    let r = layout_widgets(widgets, root, style, ctx, &mut out);
    proof {
        let s = tree_part(widgets@, widgets@.len() as int, root, style.font, style.font_size, style.color@, ctx);
        assert(Seq::<PlacedModel>::empty() + s =~= s);
    }
    match r {
        Ok(()) => (out, None),
        Err(e) => (out, Some(e)),
    }
}

} // verus!

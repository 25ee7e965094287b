use vstd::prelude::*;

verus! {

/// Short edge of the reference page format, in points.
pub const PAGE_SHORT_PT: u32 = 595;

/// Long edge of the reference page format, in points.
pub const PAGE_LONG_PT: u32 = 842;

/// An exact rational number. Page coordinates are rationals because the
/// uniform scale factor is a ratio of a page edge to an image edge; keeping
/// them exact makes every geometric contract an equation.
#[derive(Clone, Copy, Debug, PartialEq, Eq, Structural)]
pub struct Frac {
    pub num: i128,
    pub den: i128,
}

/// A rational number in specifications, with unbounded components.
pub ghost struct Rat {
    pub num: int,
    pub den: int,
}

impl View for Frac {
    type V = Rat;

    open spec fn view(&self) -> Rat {
        Rat { num: self.num as int, den: self.den as int }
    }
}

impl Frac {
    pub open spec fn wf(self) -> bool {
        self.den > 0
    }

    /// `self` denotes the rational `p / q`.
    pub open spec fn is_ratio(self, p: int, q: int) -> bool {
        &&& self.den > 0
        &&& q != 0
        &&& self.num * q == p * self.den
    }
}

/// Bounds under which the coordinate arithmetic below stays far inside
/// `i128`; the geometry of any real image satisfies them with room to
/// spare (scale numerators are page edges, denominators image edges).
pub open spec fn coord_inputs_bounded(scale: Frac, offset: Frac) -> bool {
    &&& -0x10_0000 <= scale.num <= 0x10_0000
    &&& 0 < scale.den <= 0x4_0000_0000
    &&& -0x40_0000_0000_0000 <= offset.num <= 0x40_0000_0000_0000
    &&& 0 < offset.den <= 0x4_0000_0000
}

/// Page width chosen for an image: landscape when the image is wider than
/// tall, portrait otherwise.
pub open spec fn spec_page_width(iw: int, ih: int) -> int {
    if iw > ih {
        PAGE_LONG_PT as int
    } else {
        PAGE_SHORT_PT as int
    }
}

pub open spec fn spec_page_height(iw: int, ih: int) -> int {
    if iw > ih {
        PAGE_SHORT_PT as int
    } else {
        PAGE_LONG_PT as int
    }
}

/// Numerator of the uniform scale factor
/// `min(page_width / iw, page_height / ih)`.
pub open spec fn spec_scale_num(iw: int, ih: int) -> int {
    if spec_page_width(iw, ih) * ih <= spec_page_height(iw, ih) * iw {
        spec_page_width(iw, ih)
    } else {
        spec_page_height(iw, ih)
    }
}

/// Denominator of the uniform scale factor: the image edge that limits it.
pub open spec fn spec_scale_den(iw: int, ih: int) -> int {
    if spec_page_width(iw, ih) * ih <= spec_page_height(iw, ih) * iw {
        iw
    } else {
        ih
    }
}

/// Placement of one page: the page size, the uniform scale factor, and the
/// offsets that center the scaled image on both axes.
#[derive(Clone, Copy, Debug, PartialEq, Eq, Structural)]
pub struct PageGeometry {
    pub page_width: u32,
    pub page_height: u32,
    pub scale: Frac,
    pub offset_x: Frac,
    pub offset_y: Frac,
}

impl PageGeometry {
    pub open spec fn wf(self) -> bool {
        &&& self.scale.wf()
        &&& self.offset_x.wf()
        &&& self.offset_y.wf()
        &&& 0 < self.scale.num
        &&& coord_inputs_bounded(self.scale, self.offset_x)
        &&& coord_inputs_bounded(self.scale, self.offset_y)
    }
}

proof fn lemma_scale_choice_facts(iw: int, ih: int, pw: int, ph: int, sn: int, sd: int)
    requires
        1 <= iw <= 0xFFFF_FFFF,
        1 <= ih <= 0xFFFF_FFFF,
        595 <= pw <= 842,
        595 <= ph <= 842,
        if pw * ih <= ph * iw {
            sn == pw && sd == iw
        } else {
            sn == ph && sd == ih
        },
    ensures
        iw * sn <= pw * sd,
        ih * sn <= ph * sd,
        0 <= pw * sd <= 842 * 0xFFFF_FFFF,
        0 <= ph * sd <= 842 * 0xFFFF_FFFF,
        0 <= iw * sn <= 842 * 0xFFFF_FFFF,
        0 <= ih * sn <= 842 * 0xFFFF_FFFF,
        0 < sd <= 0xFFFF_FFFF,
        595 <= sn <= 842,
{
    if pw * ih <= ph * iw {
        assert(iw * sn == pw * sd) by (nonlinear_arith)
            requires
                sn == pw,
                sd == iw,
        ;
        assert(ih * sn <= ph * sd) by (nonlinear_arith)
            requires
                pw * ih <= ph * iw,
                sn == pw,
                sd == iw,
        ;
    } else {
        assert(ih * sn == ph * sd) by (nonlinear_arith)
            requires
                sn == ph,
                sd == ih,
        ;
        assert(iw * sn <= pw * sd) by (nonlinear_arith)
            requires
                ph * iw <= pw * ih,
                sn == ph,
                sd == ih,
        ;
    }
    assert(0 <= pw * sd <= 842 * 0xFFFF_FFFF) by (nonlinear_arith)
        requires
            595 <= pw <= 842,
            0 < sd <= 0xFFFF_FFFF,
    ;
    assert(0 <= ph * sd <= 842 * 0xFFFF_FFFF) by (nonlinear_arith)
        requires
            595 <= ph <= 842,
            0 < sd <= 0xFFFF_FFFF,
    ;
    assert(0 <= iw * sn <= 842 * 0xFFFF_FFFF) by (nonlinear_arith)
        requires
            0 < iw <= 0xFFFF_FFFF,
            595 <= sn <= 842,
    ;
    assert(0 <= ih * sn <= 842 * 0xFFFF_FFFF) by (nonlinear_arith)
        requires
            0 < ih <= 0xFFFF_FFFF,
            595 <= sn <= 842,
    ;
}

/// Computes the page placement for an image: orientation by aspect ratio,
/// scale factor `min(page_width / iw, page_height / ih)` (so the scaled
/// image fits inside the page with its aspect ratio preserved), and offsets
/// `(page_edge - scaled_edge) / 2` that center it.
pub fn page_geometry(image_width: u32, image_height: u32) -> (g: PageGeometry)
    requires
        1 <= image_width,
        1 <= image_height,
    ensures
        g.wf(),
        g.page_width == spec_page_width(image_width as int, image_height as int),
        g.page_height == spec_page_height(image_width as int, image_height as int),
        g.scale.num == spec_scale_num(image_width as int, image_height as int),
        g.scale.den == spec_scale_den(image_width as int, image_height as int),
        // the scaled image fits within the page on both axes
        image_width * g.scale.num <= g.page_width * g.scale.den,
        image_height * g.scale.num <= g.page_height * g.scale.den,
        // offsets center the slack: offset = (page_edge - scaled_edge) / 2
        g.offset_x.is_ratio(
            g.page_width * g.scale.den - image_width * g.scale.num,
            2 * g.scale.den,
        ),
        g.offset_y.is_ratio(
            g.page_height * g.scale.den - image_height * g.scale.num,
            2 * g.scale.den,
        ),
        g.offset_x.num >= 0,
        g.offset_y.num >= 0,
        g.offset_x.den == 2 * g.scale.den,
        g.offset_y.den == 2 * g.scale.den,
        g.offset_x.num == g.page_width * g.scale.den - image_width * g.scale.num,
        g.offset_y.num == g.page_height * g.scale.den - image_height * g.scale.num,
{
    let (page_width, page_height): (u32, u32) = if image_width > image_height {
        (PAGE_LONG_PT, PAGE_SHORT_PT)
    } else {
        (PAGE_SHORT_PT, PAGE_LONG_PT)
    };
    let iw = image_width as i128;
    let ih = image_height as i128;
    let pw = page_width as i128;
    let ph = page_height as i128;
    proof {
        assert(0 <= (pw as int) * (ih as int) <= 842 * 0xFFFF_FFFF) by (nonlinear_arith)
            requires
                595 <= pw as int <= 842,
                1 <= ih as int <= 0xFFFF_FFFF,
        ;
        assert(0 <= (ph as int) * (iw as int) <= 842 * 0xFFFF_FFFF) by (nonlinear_arith)
            requires
                595 <= ph as int <= 842,
                1 <= iw as int <= 0xFFFF_FFFF,
        ;
    }
    let (scale_num, scale_den): (i128, i128) = if pw * ih <= ph * iw {
        (pw, iw)
    } else {
        (ph, ih)
    };
    proof {
        lemma_scale_choice_facts(
            iw as int,
            ih as int,
            pw as int,
            ph as int,
            scale_num as int,
            scale_den as int,
        );
    }
    let scale = Frac { num: scale_num, den: scale_den };
    let offset_x = Frac { num: pw * scale_den - iw * scale_num, den: 2 * scale_den };
    let offset_y = Frac { num: ph * scale_den - ih * scale_num, den: 2 * scale_den };
    PageGeometry { page_width, page_height, scale, offset_x, offset_y }
}

proof fn lemma_coord_bounds(x: int, sn: int, sd: int, on: int, od: int)
    requires
        -0x100_0000_0000 <= x <= 0x100_0000_0000,
        -0x10_0000 <= sn <= 0x10_0000,
        0 < sd <= 0x4_0000_0000,
        -0x40_0000_0000_0000 <= on <= 0x40_0000_0000_0000,
        0 < od <= 0x4_0000_0000,
    ensures
        -0x1000_0000_0000_0000 <= x * sn <= 0x1000_0000_0000_0000,
        -0x4000_0000_0000_0000_0000_0000 <= x * sn * od <= 0x4000_0000_0000_0000_0000_0000,
        -0x4000_0000_0000_0000_0000_0000 <= on * sd <= 0x4000_0000_0000_0000_0000_0000,
        0 < sd * od <= 0x10_0000_0000_0000_0000,
{
    assert(-0x1000_0000_0000_0000 <= x * sn <= 0x1000_0000_0000_0000) by (nonlinear_arith)
        requires
            -0x100_0000_0000 <= x <= 0x100_0000_0000,
            -0x10_0000 <= sn <= 0x10_0000,
    ;
    assert(-0x4000_0000_0000_0000_0000_0000 <= (x * sn) * od
        <= 0x4000_0000_0000_0000_0000_0000) by (nonlinear_arith)
        requires
            -0x1000_0000_0000_0000 <= x * sn <= 0x1000_0000_0000_0000,
            0 < od <= 0x4_0000_0000,
    ;
    assert(-0x4000_0000_0000_0000_0000_0000 <= on * sd <= 0x4000_0000_0000_0000_0000_0000)
        by (nonlinear_arith)
        requires
            -0x40_0000_0000_0000 <= on <= 0x40_0000_0000_0000,
            0 < sd <= 0x4_0000_0000,
    ;
    assert(0 < sd * od <= 0x10_0000_0000_0000_0000) by (nonlinear_arith)
        requires
            0 < sd <= 0x4_0000_0000,
            0 < od <= 0x4_0000_0000,
    ;
}

/// A word's horizontal page coordinate: `x * scale + offset`.
pub fn scaled_coord(x: i32, scale: Frac, offset: Frac) -> (r: Frac)
    requires
        coord_inputs_bounded(scale, offset),
    ensures
        r.wf(),
        r.num == x * scale.num * offset.den + offset.num * scale.den,
        r.den == scale.den * offset.den,
{
    proof {
        lemma_coord_bounds(
            x as int,
            scale.num as int,
            scale.den as int,
            offset.num as int,
            offset.den as int,
        );
    }
    Frac {
        num: (x as i128) * scale.num * offset.den + offset.num * scale.den,
        den: scale.den * offset.den,
    }
}

/// A word's vertical page coordinate. The image's origin is the top left
/// with y growing downward, the page's origin is the bottom left, so the
/// word's bottom edge `y2` lands at `(image_height - y2) * scale + offset`.
pub fn page_y_coord(y2: i32, image_height: u32, scale: Frac, offset: Frac) -> (r: Frac)
    requires
        coord_inputs_bounded(scale, offset),
    ensures
        r.wf(),
        r.num == (image_height - y2) * scale.num * offset.den + offset.num * scale.den,
        r.den == scale.den * offset.den,
{
    let flipped: i128 = (image_height as i128) - (y2 as i128);
    proof {
        lemma_coord_bounds(
            flipped as int,
            scale.num as int,
            scale.den as int,
            offset.num as int,
            offset.den as int,
        );
    }
    Frac {
        num: flipped * scale.num * offset.den + offset.num * scale.den,
        den: scale.den * offset.den,
    }
}

/// A word's font size: its bounding-box height scaled onto the page.
pub fn scaled_font_size(y1: i32, y2: i32, scale: Frac) -> (r: Frac)
    requires
        scale.wf(),
        -0x10_0000 <= scale.num <= 0x10_0000,
        scale.den <= 0x4_0000_0000,
    ensures
        r.wf(),
        r.num == (y2 - y1) * scale.num,
        r.den == scale.den,
{
    let height: i128 = (y2 as i128) - (y1 as i128);
    proof {
        assert(-0x1000_0000_0000_0000 <= (height as int) * (scale.num as int)
            <= 0x1000_0000_0000_0000) by (nonlinear_arith)
            requires
                -0x2_0000_0000 <= height as int <= 0x2_0000_0000,
                -0x10_0000 <= scale.num as int <= 0x10_0000,
        ;
    }
    Frac { num: height * scale.num, den: scale.den }
}

/// Geometry round-trip: writing `pageY = (h - y2) * scale + offset` as the
/// single rational `pn / pd`, undoing the offset and the scale recovers
/// `h - y2` — and with it `y2` — exactly:
/// `(pageY - offset) / scale == h - y2` as rationals.
pub proof fn lemma_geometry_round_trip(y2: int, h: int, sn: int, sd: int, on: int, od: int)
    requires
        sn != 0,
        sd > 0,
        od > 0,
    ensures
        ({
            let pn = (h - y2) * sn * od + on * sd;
            let pd = sd * od;
            // (pn/pd - on/od) * (sd/sn) == h - y2
            (pn * od - on * pd) * sd == (h - y2) * (pd * od * sn)
        }),
{
    let pn = (h - y2) * sn * od + on * sd;
    let pd = sd * od;
    assert((pn * od - on * pd) * sd == (h - y2) * (pd * od * sn)) by (nonlinear_arith)
        requires
            pn == (h - y2) * sn * od + on * sd,
            pd == sd * od,
    ;
}

} // verus!

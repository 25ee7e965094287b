use vstd::prelude::*;
use crate::frame::{Frame, FrameView};
use crate::frame_analyzer::strictly_increasing;
use crate::fonts::{str_width_millis, text_width_millis};
use crate::geometry::{
    page_geometry, page_y_coord, scaled_coord, scaled_font_size, spec_page_height,
    spec_page_width, spec_scale_den, spec_scale_num, Frac, Rat,
};
use crate::ocr::{OcrFrameResult, OcrFrameResultView, OcrWord, OcrWordView};

verus! {

/// Words under this confidence (in hundredths of a percent) are silently
/// left out of the text layer: a fixed quality threshold.
pub const CONFIDENCE_GATE_CENTI: u32 = 5000;

/// JPEG quality used for the embedded page images.
pub const JPEG_QUALITY: u8 = 85;

/// The JPEG encoding of a pixel buffer at a given quality, as computed by
/// the `image` crate's encoder: a pure function of its arguments, given a
/// name here so contracts can speak of it.
pub uninterp spec fn jpeg_of(pixels: Seq<u8>, width: int, height: int, quality: int) -> Seq<u8>;

/// Whether a frame's image can be JPEG-encoded: the format stores each
/// dimension in 16 bits.
pub open spec fn spec_jpeg_encodable(f: FrameView) -> bool {
    f.width <= 65535 && f.height <= 65535
}

/// Relies on `image::ImageBuffer::write_to` with `ImageOutputFormat::Jpeg`
/// (image 0.24.9): the encoding depends on the pixel data, the dimensions
/// and the quality alone. For a well-formed frame written to an in-memory
/// cursor the encoder fails exactly when a dimension does not fit the
/// format's 16-bit frame header (its only other fallible steps are writes,
/// which cannot fail on a byte vector; the quality is clamped internally).
#[verifier::external_body]
fn encode_jpeg(frame: &Frame, quality: u8) -> (r: Option<Vec<u8>>)
    requires
        frame.wf(),
    ensures
        r is Some <==> spec_jpeg_encodable(frame@),
        r matches Some(v) ==> v@ == jpeg_of(
            frame.pixels@,
            frame.width as int,
            frame.height as int,
            quality as int,
        ),
{
    let img = image::RgbImage::from_raw(frame.width, frame.height, frame.pixels.clone())
        .expect("frame buffer matches its dimensions");
    let mut cursor = std::io::Cursor::new(Vec::new());
    match img.write_to(&mut cursor, image::ImageOutputFormat::Jpeg(quality)) {
        Ok(()) => Some(cursor.into_inner()),
        Err(_) => None,
    }
}

/// One invisible text-layer instruction: where a word's text is placed on
/// the page, at what font size, and with what horizontal glyph stretch.
pub struct TextRun {
    pub text: String,
    pub x: Frac,
    pub y: Frac,
    pub font_size: Frac,
    /// Horizontal scaling in percent; absent when the text has no natural
    /// width to stretch (zero or negative metrics).
    pub h_scaling: Option<Frac>,
}

#[verifier::ext_equal]
pub ghost struct TextRunView {
    pub text: Seq<char>,
    pub x: Rat,
    pub y: Rat,
    pub font_size: Rat,
    pub h_scaling: Option<Rat>,
}

impl View for TextRun {
    type V = TextRunView;

    open spec fn view(&self) -> TextRunView {
        TextRunView {
            text: self.text@,
            x: self.x@,
            y: self.y@,
            font_size: self.font_size@,
            h_scaling: match self.h_scaling {
                Option::Some(f) => Option::Some(f@),
                Option::None => Option::None,
            },
        }
    }
}

/// The text run of one word: its box corner mapped to page space by
/// `x * scale + offset` with the vertical axis flipped, the font size from
/// the scaled box height, and the horizontal scaling that stretches the
/// word to its box width. The scaling is skipped when the natural rendered
/// width would be zero or negative.
pub open spec fn spec_text_run(
    w: OcrWordView,
    image_height: int,
    scale: Rat,
    ox: Rat,
    oy: Rat,
) -> TextRunView {
    let x1 = w.bbox.0;
    let y1 = w.bbox.1;
    let x2 = w.bbox.2;
    let y2 = w.bbox.3;
    TextRunView {
        text: w.text,
        x: Rat { num: x1 * scale.num * ox.den + ox.num * scale.den, den: scale.den * ox.den },
        y: Rat {
            num: (image_height - y2) * scale.num * oy.den + oy.num * scale.den,
            den: scale.den * oy.den,
        },
        font_size: Rat { num: (y2 - y1) * scale.num, den: scale.den },
        h_scaling: if text_width_millis(w.text) > 0 && y2 - y1 > 0 {
            Option::Some(
                Rat { num: (x2 - x1) * 100000, den: text_width_millis(w.text) * (y2 - y1) },
            )
        } else {
            Option::None
        },
    }
}

/// The horizontal scaling of a word is exactly
/// `(word box width in page units) / (natural rendered text width) * 100`:
/// with `word_width = (x2 - x1) * sn / sd` and
/// `natural_width = wsum * (y2 - y1) * sn / (1000 * sd)` (the metrics sum
/// `wsum` is in thousandths of the font size), the scale factor cancels and
/// the stored ratio `(x2 - x1) * 100000 / (wsum * (y2 - y1))` equals
/// `word_width * 100 / natural_width` as rationals.
pub proof fn lemma_h_scaling_matches_metrics(
    x1: int,
    x2: int,
    y1: int,
    y2: int,
    wsum: int,
    sn: int,
    sd: int,
)
    requires
        wsum > 0,
        y2 > y1,
        sn > 0,
        sd > 0,
    ensures
        ((x2 - x1) * 100000) * (sd * (wsum * ((y2 - y1) * sn))) == ((x2 - x1) * (sn * (100000
            * sd))) * (wsum * (y2 - y1)),
{
    assert(((x2 - x1) * 100000) * (sd * (wsum * ((y2 - y1) * sn))) == ((x2 - x1) * (sn * (100000
        * sd))) * (wsum * (y2 - y1))) by (nonlinear_arith);
}

/// Builds the text run for one recognized word.
pub fn make_text_run(
    word: &OcrWord,
    image_height: u32,
    scale: Frac,
    offset_x: Frac,
    offset_y: Frac,
) -> (r: TextRun)
    requires
        crate::geometry::coord_inputs_bounded(scale, offset_x),
        crate::geometry::coord_inputs_bounded(scale, offset_y),
    ensures
        r@ == spec_text_run(word@, image_height as int, scale@, offset_x@, offset_y@),
{
    let (x1, y1, x2, y2) = word.bbox;
    let x = scaled_coord(x1, scale, offset_x);
    let y = page_y_coord(y2, image_height, scale, offset_y);
    let font_size = scaled_font_size(y1, y2, scale);
    let wsum = str_width_millis(word.text.as_str());
    let h_scaling: Option<Frac> = if wsum > 0 && y2 > y1 {
        let height: i128 = (y2 as i128) - (y1 as i128);
        proof {
            assert(0 < (wsum as int) * (height as int) < 0x1_0000_0000_0000_0000_0000_0000_0000)
                by (nonlinear_arith)
                requires
                    0 < (wsum as int) < 0x4000_0000_0000_0000_0000,
                    0 < (height as int) < 0x2_0000_0000,
            ;
        }
        Some(Frac { num: ((x2 as i128) - (x1 as i128)) * 100000, den: (wsum as i128) * height })
    } else {
        None
    };
    let r = TextRun { text: word.text.clone(), x, y, font_size, h_scaling };
    proof {
        assert(r@ =~~= spec_text_run(word@, image_height as int, scale@, offset_x@, offset_y@));
    }
    r
}

/// One finished page: the chosen page size, the placement of the image on
/// it, the compressed image itself, and the invisible text runs.
pub struct Page {
    /// Position of the source frame in the kept sequence.
    pub frame_index: usize,
    pub page_width: u32,
    pub page_height: u32,
    pub image_width: u32,
    pub image_height: u32,
    pub scale: Frac,
    pub offset_x: Frac,
    pub offset_y: Frac,
    /// JPEG encoding of the frame's pixels.
    pub jpeg: Vec<u8>,
    pub text_runs: Vec<TextRun>,
}

#[verifier::ext_equal]
pub ghost struct PageView {
    pub frame_index: int,
    pub page_width: int,
    pub page_height: int,
    pub image_width: int,
    pub image_height: int,
    pub scale: Rat,
    pub offset_x: Rat,
    pub offset_y: Rat,
    pub jpeg: Seq<u8>,
    pub text_runs: Seq<TextRunView>,
}

impl View for Page {
    type V = PageView;

    open spec fn view(&self) -> PageView {
        PageView {
            frame_index: self.frame_index as int,
            page_width: self.page_width as int,
            page_height: self.page_height as int,
            image_width: self.image_width as int,
            image_height: self.image_height as int,
            scale: self.scale@,
            offset_x: self.offset_x@,
            offset_y: self.offset_y@,
            jpeg: self.jpeg@,
            text_runs: self.text_runs@.map_values(|t: TextRun| t@),
        }
    }
}

pub open spec fn spec_geom_scale(iw: int, ih: int) -> Rat {
    Rat { num: spec_scale_num(iw, ih), den: spec_scale_den(iw, ih) }
}

pub open spec fn spec_geom_offset_x(iw: int, ih: int) -> Rat {
    Rat {
        num: spec_page_width(iw, ih) * spec_scale_den(iw, ih) - iw * spec_scale_num(iw, ih),
        den: 2 * spec_scale_den(iw, ih),
    }
}

pub open spec fn spec_geom_offset_y(iw: int, ih: int) -> Rat {
    Rat {
        num: spec_page_height(iw, ih) * spec_scale_den(iw, ih) - ih * spec_scale_num(iw, ih),
        den: 2 * spec_scale_den(iw, ih),
    }
}

/// The text runs of a page: one per word whose confidence reaches the
/// quality threshold, in word order; the others are left out.
pub open spec fn spec_page_runs(
    words: Seq<OcrWordView>,
    image_height: int,
    scale: Rat,
    ox: Rat,
    oy: Rat,
) -> Seq<TextRunView>
    decreases words.len(),
{
    if words.len() == 0 {
        Seq::empty()
    } else {
        let rest = spec_page_runs(words.drop_last(), image_height, scale, ox, oy);
        if words.last().confidence >= CONFIDENCE_GATE_CENTI {
            rest.push(spec_text_run(words.last(), image_height, scale, ox, oy))
        } else {
            rest
        }
    }
}

/// The quality threshold, both ways: the text runs of a page are exactly
/// the words whose confidence reaches the threshold, each turned into its
/// run, in word order — no word under the threshold appears, and every word
/// at or over it appears.
pub proof fn lemma_runs_are_the_confident_words(
    words: Seq<OcrWordView>,
    image_height: int,
    scale: Rat,
    ox: Rat,
    oy: Rat,
)
    ensures
        spec_page_runs(words, image_height, scale, ox, oy) == words.filter(
            |w: OcrWordView| w.confidence >= CONFIDENCE_GATE_CENTI,
        ).map_values(|w: OcrWordView| spec_text_run(w, image_height, scale, ox, oy)),
    decreases words.len(),
{
    reveal_with_fuel(Seq::<OcrWordView>::filter, 2);
    let accepted = |w: OcrWordView| w.confidence >= CONFIDENCE_GATE_CENTI;
    let to_run = |w: OcrWordView| spec_text_run(w, image_height, scale, ox, oy);
    if words.len() == 0 {
        assert(words.filter(accepted) == words);
        assert(words.filter(accepted).map_values(to_run) =~= Seq::<TextRunView>::empty());
    } else {
        let prefix = words.drop_last();
        lemma_runs_are_the_confident_words(prefix, image_height, scale, ox, oy);
        assert(prefix.filter(accepted).map_values(to_run) == spec_page_runs(
            prefix,
            image_height,
            scale,
            ox,
            oy,
        ));
        if accepted(words.last()) {
            assert(words.filter(accepted) == prefix.filter(accepted).push(words.last()));
            assert(words.filter(accepted).map_values(to_run) =~= prefix.filter(
                accepted,
            ).map_values(to_run).push(to_run(words.last())));
        } else {
            assert(words.filter(accepted) == prefix.filter(accepted));
        }
    }
}

/// The page a frame yields, given the words recognized on it.
pub open spec fn spec_page(frame_index: int, f: FrameView, words: Seq<OcrWordView>) -> PageView {
    let scale = spec_geom_scale(f.width, f.height);
    let ox = spec_geom_offset_x(f.width, f.height);
    let oy = spec_geom_offset_y(f.width, f.height);
    PageView {
        frame_index: frame_index,
        page_width: spec_page_width(f.width, f.height),
        page_height: spec_page_height(f.width, f.height),
        image_width: f.width,
        image_height: f.height,
        scale: scale,
        offset_x: ox,
        offset_y: oy,
        jpeg: jpeg_of(f.pixels, f.width, f.height, JPEG_QUALITY as int),
        text_runs: spec_page_runs(words, f.height, scale, ox, oy),
    }
}

/// Lays out one page from a frame, its recognized words, and the already
/// encoded image. Every word whose confidence reaches the quality threshold
/// yields exactly one invisible text run; no other word appears.
pub fn assemble_page(frame_index: usize, frame: &Frame, words: &Vec<OcrWord>, jpeg: Vec<u8>) -> (p:
    Page)
    requires
        frame.wf(),
        jpeg@ == jpeg_of(frame.pixels@, frame.width as int, frame.height as int,
            JPEG_QUALITY as int),
    ensures
        p@ == spec_page(frame_index as int, frame@, words@.map_values(|w: OcrWord| w@)),
{
    let g = page_geometry(frame.width, frame.height);
    let ghost ws = words@.map_values(|w: OcrWord| w@);
    let mut runs: Vec<TextRun> = Vec::new();
    let mut i: usize = 0;
    while i < words.len()
        invariant
            0 <= i <= words@.len(),
            ws == words@.map_values(|w: OcrWord| w@),
            frame.wf(),
            g.wf(),
            g.page_width == spec_page_width(frame@.width, frame@.height),
            g.page_height == spec_page_height(frame@.width, frame@.height),
            g.scale@ == spec_geom_scale(frame@.width, frame@.height),
            g.offset_x@ == spec_geom_offset_x(frame@.width, frame@.height),
            g.offset_y@ == spec_geom_offset_y(frame@.width, frame@.height),
            runs@.map_values(|t: TextRun| t@) == spec_page_runs(
                ws.take(i as int),
                frame@.height,
                g.scale@,
                g.offset_x@,
                g.offset_y@,
            ),
        decreases words@.len() - i,
    {
        proof {
            assert(ws.take(i + 1).drop_last() =~= ws.take(i as int));
            assert(ws.take(i + 1).last() == ws[i as int]);
        }
        let word = &words[i];
        if word.confidence >= CONFIDENCE_GATE_CENTI {
            let ghost old_runs = runs@.map_values(|t: TextRun| t@);
            let run = make_text_run(word, frame.height, g.scale, g.offset_x, g.offset_y);
            runs.push(run);
            proof {
                assert(runs@.map_values(|t: TextRun| t@) =~= old_runs.push(run@));
            }
        }
        i = i + 1;
    }
    let p = Page {
        frame_index,
        page_width: g.page_width,
        page_height: g.page_height,
        image_width: frame.width,
        image_height: frame.height,
        scale: g.scale,
        offset_x: g.offset_x,
        offset_y: g.offset_y,
        jpeg,
        text_runs: runs,
    };
    proof {
        assert(ws.take(words@.len() as int) =~= ws);
        assert(p@ =~~= spec_page(frame_index as int, frame@, ws));
    }
    p
}

/// Index of the recognition entry for a kept-frame position: the last
/// entry with that `frame_index`, as a map built from the list would give.
pub open spec fn last_match(recs: Seq<OcrFrameResultView>, idx: int) -> Option<int>
    decreases recs.len(),
{
    if recs.len() == 0 {
        Option::None
    } else if recs.last().frame_index == idx {
        Option::Some(recs.len() - 1)
    } else {
        last_match(recs.drop_last(), idx)
    }
}

/// The word list that a kept-frame position contributes to its page: the
/// words of its recognition entry, or none when recognition yielded none.
pub open spec fn words_for(recs: Seq<OcrFrameResultView>, idx: int) -> Seq<OcrWordView> {
    match last_match(recs, idx) {
        Option::Some(k) => recs[k].words,
        Option::None => Seq::empty(),
    }
}

/// Finds the recognition entry for a kept-frame position, taking the last
/// entry when several carry the same position.
pub fn find_recognition(recognitions: &Vec<OcrFrameResult>, idx: usize) -> (r: Option<usize>)
    ensures
        ({
            let rv = recognitions@.map_values(|x: OcrFrameResult| x@);
            match r {
                Option::Some(j) => 0 <= j < recognitions@.len() && last_match(rv, idx as int)
                    == Option::Some(j as int),
                Option::None => last_match(rv, idx as int) is None,
            }
        }),
{
    let ghost rv = recognitions@.map_values(|x: OcrFrameResult| x@);
    let mut found: Option<usize> = None;
    let mut j: usize = 0;
    while j < recognitions.len()
        invariant
            0 <= j <= recognitions@.len(),
            rv == recognitions@.map_values(|x: OcrFrameResult| x@),
            rv.len() == recognitions@.len(),
            match found {
                Option::Some(fj) => 0 <= fj < j && last_match(rv.take(j as int), idx as int)
                    == Option::Some(fj as int),
                Option::None => last_match(rv.take(j as int), idx as int) is None,
            },
        decreases recognitions@.len() - j,
    {
        proof {
            assert(rv.take(j + 1).drop_last() =~= rv.take(j as int));
            assert(rv.take(j + 1).last() == rv[j as int]);
        }
        if recognitions[j].frame_index == idx {
            found = Some(j);
        }
        j = j + 1;
    }
    proof {
        assert(rv.take(recognitions@.len() as int) =~= rv);
    }
    found
}

pub open spec fn page_indices(pages: Seq<Page>) -> Seq<int> {
    pages.map_values(|p: Page| p.frame_index as int)
}

pub open spec fn skipped_indices(skipped: Seq<usize>) -> Seq<int> {
    skipped.map_values(|x: usize| x as int)
}

/// Whether one page is correct for a list of frames and recognitions: it is
/// the page of the frame it names, built from that frame's words.
pub open spec fn page_ok(p: Page, frames: Seq<Frame>, recs: Seq<OcrFrameResultView>) -> bool {
    &&& 0 <= p.frame_index < frames.len()
    &&& p@ == spec_page(p.frame_index as int, frames[p.frame_index as int]@, words_for(
        recs,
        p.frame_index as int,
    ))
}

/// The page views of the whole document over the first `upto` frames: one
/// page per encodable frame, in frame order — a function of the inputs.
pub open spec fn spec_document_pages(
    frames: Seq<Frame>,
    recs: Seq<OcrFrameResultView>,
    upto: int,
) -> Seq<PageView>
    decreases upto,
{
    if upto <= 0 {
        Seq::empty()
    } else {
        let rest = spec_document_pages(frames, recs, upto - 1);
        if spec_jpeg_encodable(frames[upto - 1]@) {
            rest.push(spec_page(upto - 1, frames[upto - 1]@, words_for(recs, upto - 1)))
        } else {
            rest
        }
    }
}

/// The positions among the first `upto` frames whose page is skipped:
/// exactly the frames whose image the encoder cannot take.
pub open spec fn spec_skipped_frames(frames: Seq<Frame>, upto: int) -> Seq<int>
    decreases upto,
{
    if upto <= 0 {
        Seq::empty()
    } else {
        let rest = spec_skipped_frames(frames, upto - 1);
        if spec_jpeg_encodable(frames[upto - 1]@) {
            rest
        } else {
            rest.push(upto - 1)
        }
    }
}

/// Idempotence of assembly: the pages and the skip list that
/// `build_document` returns are pinned by its contract to mathematical
/// functions of the frames and recognitions, so building twice from
/// identical inputs yields identical document content and skip lists.
pub proof fn lemma_document_deterministic(
    frames1: Seq<Frame>,
    frames2: Seq<Frame>,
    recs1: Seq<OcrFrameResultView>,
    recs2: Seq<OcrFrameResultView>,
)
    requires
        frames1 == frames2,
        recs1 == recs2,
    ensures
        spec_document_pages(frames1, recs1, frames1.len() as int) == spec_document_pages(
            frames2,
            recs2,
            frames2.len() as int,
        ),
        spec_skipped_frames(frames1, frames1.len() as int) == spec_skipped_frames(
            frames2,
            frames2.len() as int,
        ),
{
}

proof fn lemma_push_contains_iff(s: Seq<int>, x: int, y: int)
    ensures
        s.push(x).contains(y) <==> (s.contains(y) || y == x),
{
    if s.push(x).contains(y) {
        let k = choose|k: int| 0 <= k < s.push(x).len() && s.push(x)[k] == y;
        if k < s.len() {
            assert(s[k] == y);
        }
    }
    if s.contains(y) {
        let k = choose|k: int| 0 <= k < s.len() && s[k] == y;
        assert(s.push(x)[k] == y);
    }
    assert(s.push(x)[s.len() as int] == x);
}

proof fn lemma_bounded_not_contains(s: Seq<int>, i: int)
    requires
        forall|k: int| 0 <= k < s.len() ==> #[trigger] s[k] < i,
    ensures
        !s.contains(i),
{
    if s.contains(i) {
        let k = choose|k: int| 0 <= k < s.len() && s[k] == i;
        assert(s[k] < i);
    }
}

/// Lays out the whole document: one page per kept frame, in order. A frame
/// whose image the encoder cannot take — one with a dimension beyond the
/// format's 16-bit limit — is skipped with its position recorded; the
/// explicit policy here is to drop that page and carry on rather than
/// abort the build. Every other frame yields exactly one page, so the
/// whole result is a function of the inputs.
pub fn build_document(frames: &Vec<Frame>, recognitions: &Vec<OcrFrameResult>) -> (r: (
    Vec<Page>,
    Vec<usize>,
))
    requires
        forall|i: int| 0 <= i < frames@.len() ==> (#[trigger] frames@[i]).wf(),
    ensures
        r.0@.len() + r.1@.len() == frames@.len(),
        strictly_increasing(page_indices(r.0@)),
        strictly_increasing(skipped_indices(r.1@)),
        forall|k: int| 0 <= k < r.0@.len() ==> page_ok(
            #[trigger] r.0@[k],
            frames@,
            recognitions@.map_values(|x: OcrFrameResult| x@),
        ),
        forall|k: int| 0 <= k < r.1@.len() ==> (#[trigger] r.1@[k]) < frames@.len(),
        forall|j: int| 0 <= j < frames@.len() ==> page_indices(r.0@).contains(j)
            || skipped_indices(r.1@).contains(j),
        forall|a: int, b: int|
            #![trigger page_indices(r.0@)[a], skipped_indices(r.1@)[b]]
            0 <= a < r.0@.len() && 0 <= b < r.1@.len() ==> page_indices(r.0@)[a]
                != skipped_indices(r.1@)[b],
        // a frame yields a page exactly when its image fits the format
        forall|j: int| 0 <= j < frames@.len() ==> (page_indices(r.0@).contains(j)
            <==> spec_jpeg_encodable((#[trigger] frames@[j])@)),
        forall|j: int| 0 <= j < frames@.len() ==> (skipped_indices(r.1@).contains(j)
            <==> !spec_jpeg_encodable((#[trigger] frames@[j])@)),
        // the whole result is a function of the inputs
        r.0@.map_values(|p: Page| p@) == spec_document_pages(
            frames@,
            recognitions@.map_values(|x: OcrFrameResult| x@),
            frames@.len() as int,
        ),
        skipped_indices(r.1@) == spec_skipped_frames(frames@, frames@.len() as int),
{
    let ghost recs_view = recognitions@.map_values(|x: OcrFrameResult| x@);
    let mut pages: Vec<Page> = Vec::new();
    let mut skipped: Vec<usize> = Vec::new();
    let mut i: usize = 0;
    let empty_words: Vec<OcrWord> = Vec::new();
    while i < frames.len()
        invariant
            0 <= i <= frames@.len(),
            forall|k: int| 0 <= k < frames@.len() ==> (#[trigger] frames@[k]).wf(),
            recs_view == recognitions@.map_values(|x: OcrFrameResult| x@),
            empty_words@.len() == 0,
            pages@.len() + skipped@.len() == i,
            strictly_increasing(page_indices(pages@)),
            strictly_increasing(skipped_indices(skipped@)),
            forall|k: int| 0 <= k < pages@.len() ==> (#[trigger] pages@[k]).frame_index < i,
            forall|k: int| 0 <= k < skipped@.len() ==> (#[trigger] skipped@[k]) < i,
            forall|k: int| 0 <= k < pages@.len() ==> page_ok(
                #[trigger] pages@[k],
                frames@,
                recs_view,
            ),
            forall|j: int| 0 <= j < i ==> page_indices(pages@).contains(j) || skipped_indices(
                skipped@,
            ).contains(j),
            forall|a: int, b: int|
                #![trigger page_indices(pages@)[a], skipped_indices(skipped@)[b]]
                0 <= a < pages@.len() && 0 <= b < skipped@.len() ==> page_indices(pages@)[a]
                    != skipped_indices(skipped@)[b],
            forall|j: int| 0 <= j < i ==> (page_indices(pages@).contains(j)
                <==> spec_jpeg_encodable((#[trigger] frames@[j])@)),
            forall|j: int| 0 <= j < i ==> (skipped_indices(skipped@).contains(j)
                <==> !spec_jpeg_encodable((#[trigger] frames@[j])@)),
            pages@.map_values(|p: Page| p@) == spec_document_pages(frames@, recs_view, i as int),
            skipped_indices(skipped@) == spec_skipped_frames(frames@, i as int),
        decreases frames@.len() - i,
    {
        let frame = &frames[i];
        let ghost old_pidx = page_indices(pages@);
        let ghost old_sidx = skipped_indices(skipped@);
        let ghost old_pviews = pages@.map_values(|p: Page| p@);
        match encode_jpeg(frame, JPEG_QUALITY) {
            Some(jpeg) => {
                let page = match find_recognition(recognitions, i) {
                    Some(j) => assemble_page(i, frame, &recognitions[j].words, jpeg),
                    None => assemble_page(i, frame, &empty_words, jpeg),
                };
                proof {
                    assert(empty_words@.map_values(|w: OcrWord| w@) =~= Seq::<
                        OcrWordView,
                    >::empty());
                    if last_match(recs_view, i as int) is Some {
                        let j = last_match(recs_view, i as int)->0;
                        assert(recs_view[j].words == recognitions@[j].words@.map_values(
                            |w: OcrWord| w@,
                        ));
                    }
                    assert(page@ == spec_page(i as int, frames@[i as int]@, words_for(
                        recs_view,
                        i as int,
                    )));
                }
                pages.push(page);
                proof {
                    assert(spec_jpeg_encodable(frames@[i as int]@));
                    assert(page_indices(pages@) =~= old_pidx.push(i as int));
                    assert(pages@.map_values(|p: Page| p@) =~= old_pviews.push(page@));
                    lemma_partition_extend(old_pidx, old_sidx, i as int, true);
                    lemma_bounded_not_contains(old_sidx, i as int);
                    assert forall|j: int| 0 <= j < i + 1 implies (page_indices(
                        pages@,
                    ).contains(j) <==> spec_jpeg_encodable((#[trigger] frames@[j])@)) by {
                        lemma_push_contains_iff(old_pidx, i as int, j);
                    }
                    assert forall|j: int| 0 <= j < i + 1 implies (skipped_indices(
                        skipped@,
                    ).contains(j) <==> !spec_jpeg_encodable((#[trigger] frames@[j])@)) by {
                    }
                }
            },
            None => {
                skipped.push(i);
                proof {
                    assert(!spec_jpeg_encodable(frames@[i as int]@));
                    assert(skipped_indices(skipped@) =~= old_sidx.push(i as int));
                    lemma_partition_extend(old_pidx, old_sidx, i as int, false);
                    lemma_bounded_not_contains(old_pidx, i as int);
                    assert forall|j: int| 0 <= j < i + 1 implies (skipped_indices(
                        skipped@,
                    ).contains(j) <==> !spec_jpeg_encodable((#[trigger] frames@[j])@)) by {
                        lemma_push_contains_iff(old_sidx, i as int, j);
                    }
                    assert forall|j: int| 0 <= j < i + 1 implies (page_indices(
                        pages@,
                    ).contains(j) <==> spec_jpeg_encodable((#[trigger] frames@[j])@)) by {
                    }
                }
            },
        }
        i = i + 1;
    }
    (pages, skipped)
}

/// Adding the next stream position to one of two increasing, disjoint index
/// lists keeps them increasing and disjoint, and covers the new position.
proof fn lemma_partition_extend(pidx: Seq<int>, sidx: Seq<int>, i: int, to_pages: bool)
    requires
        strictly_increasing(pidx),
        strictly_increasing(sidx),
        forall|k: int| 0 <= k < pidx.len() ==> #[trigger] pidx[k] < i,
        forall|k: int| 0 <= k < sidx.len() ==> #[trigger] sidx[k] < i,
        forall|a: int, b: int|
            #![trigger pidx[a], sidx[b]]
            0 <= a < pidx.len() && 0 <= b < sidx.len() ==> pidx[a] != sidx[b],
    ensures
        to_pages ==> strictly_increasing(pidx.push(i)) && (forall|a: int, b: int|
            #![trigger pidx.push(i)[a], sidx[b]]
            0 <= a < pidx.len() + 1 && 0 <= b < sidx.len() ==> pidx.push(i)[a] != sidx[b])
            && pidx.push(i).contains(i),
        !to_pages ==> strictly_increasing(sidx.push(i)) && (forall|a: int, b: int|
            #![trigger pidx[a], sidx.push(i)[b]]
            0 <= a < pidx.len() && 0 <= b < sidx.len() + 1 ==> pidx[a] != sidx.push(i)[b])
            && sidx.push(i).contains(i),
        forall|j: int| pidx.contains(j) ==> pidx.push(i).contains(j),
        forall|j: int| sidx.contains(j) ==> sidx.push(i).contains(j),
{
    assert forall|i2: int, j2: int| 0 <= i2 < j2 < pidx.push(i).len() implies pidx.push(i)[i2]
        < pidx.push(i)[j2] by {
        if j2 < pidx.len() {
        } else {
            assert(pidx.push(i)[i2] == pidx[i2]);
        }
    }
    assert forall|i2: int, j2: int| 0 <= i2 < j2 < sidx.push(i).len() implies sidx.push(i)[i2]
        < sidx.push(i)[j2] by {
        if j2 < sidx.len() {
        } else {
            assert(sidx.push(i)[i2] == sidx[i2]);
        }
    }
    assert(pidx.push(i)[pidx.len() as int] == i);
    assert(sidx.push(i)[sidx.len() as int] == i);
    assert forall|j: int| pidx.contains(j) implies pidx.push(i).contains(j) by {
        let k = choose|k: int| 0 <= k < pidx.len() && pidx[k] == j;
        assert(pidx.push(i)[k] == j);
    }
    assert forall|j: int| sidx.contains(j) implies sidx.push(i).contains(j) by {
        let k = choose|k: int| 0 <= k < sidx.len() && sidx[k] == j;
        assert(sidx.push(i)[k] == j);
    }
}

} // verus!

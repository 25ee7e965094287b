use vstd::prelude::*;

verus! {

/// A single recognized word. The confidence is carried in hundredths of a
/// percent (0 to 10000), so the quality gate is exact integer arithmetic.
pub struct OcrWord {
    pub text: String,
    /// Pixel-space bounding box `(x1, y1, x2, y2)`, origin at the top left
    /// of the source frame, y growing downward.
    pub bbox: (i32, i32, i32, i32),
    /// Recognition confidence in hundredths of a percent.
    pub confidence: u32,
}

/// The mathematical content of an [`OcrWord`].
pub ghost struct OcrWordView {
    pub text: Seq<char>,
    pub bbox: (int, int, int, int),
    pub confidence: int,
}

impl View for OcrWord {
    type V = OcrWordView;

    open spec fn view(&self) -> OcrWordView {
        OcrWordView {
            text: self.text@,
            bbox: (
                self.bbox.0 as int,
                self.bbox.1 as int,
                self.bbox.2 as int,
                self.bbox.3 as int,
            ),
            confidence: self.confidence as int,
        }
    }
}

/// All the recognized words of a single kept frame, keyed by the frame's
/// position in the kept sequence.
pub struct OcrFrameResult {
    pub frame_index: usize,
    pub words: Vec<OcrWord>,
}

pub ghost struct OcrFrameResultView {
    pub frame_index: int,
    pub words: Seq<OcrWordView>,
}

impl View for OcrFrameResult {
    type V = OcrFrameResultView;

    open spec fn view(&self) -> OcrFrameResultView {
        OcrFrameResultView {
            frame_index: self.frame_index as int,
            words: self.words@.map_values(|w: OcrWord| w@),
        }
    }
}

/// Words that survive recognition: those whose text is non-empty.
pub open spec fn spec_nonempty_words(ws: Seq<OcrWordView>) -> Seq<OcrWordView>
    decreases ws.len(),
{
    if ws.len() == 0 {
        Seq::empty()
    } else {
        let rest = spec_nonempty_words(ws.drop_last());
        if ws.last().text.len() > 0 {
            rest.push(ws.last())
        } else {
            rest
        }
    }
}

/// Drops recognized words whose text is empty, keeping the rest in order.
pub fn clean_words(words: Vec<OcrWord>) -> (r: Vec<OcrWord>)
    ensures
        r@.map_values(|w: OcrWord| w@) == spec_nonempty_words(words@.map_values(|w: OcrWord| w@)),
{
    let ghost all = words@.map_values(|w: OcrWord| w@);
    let mut words = words;
    let mut r: Vec<OcrWord> = Vec::new();
    let ghost total = all.len();
    while words.len() > 0
        invariant
            words@.map_values(|w: OcrWord| w@) =~= all.skip(total - words@.len()),
            words@.len() <= total == all.len(),
            r@.map_values(|w: OcrWord| w@) == spec_nonempty_words(
                all.take(total - words@.len()),
            ),
        decreases words@.len(),
    {
        let ghost k = total - words@.len();
        let ghost pre_vec = words@;
        let ghost pre = words@.map_values(|x: OcrWord| x@);
        let w = words.remove(0);
        proof {
            assert(pre[0] == all.skip(k)[0]);
            assert(all.skip(k)[0] == all[k]);
            assert(w@ == pre[0]);
            assert(words@ == pre_vec.remove(0));
            assert(pre_vec.remove(0) =~= pre_vec.subrange(1, pre_vec.len() as int));
            let post = words@.map_values(|x: OcrWord| x@);
            assert forall|j: int| 0 <= j < post.len() implies #[trigger] post[j] == all.skip(
                k + 1,
            )[j] by {
                assert(words@[j] == pre_vec[j + 1]);
                assert(pre[j + 1] == all.skip(k)[j + 1]);
                assert(all.skip(k)[j + 1] == all[k + 1 + j]);
            }
            assert(post =~= all.skip(k + 1));
            assert(all.take(k + 1).drop_last() =~= all.take(k));
            assert(all.take(k + 1).last() == all[k]);
        }
        if !w.text.as_str().is_empty() {
            let ghost old_r = r@.map_values(|x: OcrWord| x@);
            r.push(w);
            proof {
                assert(r@.map_values(|x: OcrWord| x@) =~= old_r.push(all[k]));
            }
        }
    }
    proof {
        assert(all.take(total as int) =~= all);
    }
    r
}

} // verus!

use vstd::prelude::*;
use crate::frame::{Frame, FrameView};
use crate::fingerprint::{hamming, hamming_distance, perceptual_fingerprint, phash_of};

verus! {

/// Width and height of the resized image and of the hash grid.
pub const HASH_DIM: usize = 16;

/// The reference distance ceiling used for the difference ratio:
/// `HASH_DIM * HASH_DIM` grid cells.
pub const MAX_DISTANCE: u32 = 256;

/// Bits actually held by a fingerprint: each of the `HASH_DIM` rows
/// contributes `HASH_DIM - 1` bits (the DC column is skipped).
pub const FINGERPRINT_BITS: usize = 240;

/// Sensitivity is carried in parts per million of the `[0, 1]` range, so
/// the drop test is exact integer arithmetic.
pub const SENSITIVITY_DENOM: u32 = 1000000;

/// The sensitivity parameter was outside the accepted `[0, 1]` range.
#[derive(Clone, Copy, Debug, PartialEq, Eq, Structural)]
pub struct ConfigError;

/// The fingerprint of a frame under the analyzer's fixed configuration.
pub open spec fn frame_fp(f: FrameView) -> Seq<bool> {
    phash_of(f.pixels, f.width, f.height, HASH_DIM as int, HASH_DIM as int)
}

/// The mathematical state of an analysis session.
#[verifier::ext_equal]
pub ghost struct AnalyzerModel {
    pub sensitivity_ppm: int,
    /// Frames seen so far, kept or not.
    pub total: int,
    /// Fingerprint of the most recently kept frame, if any frame was kept.
    pub baseline: Option<Seq<bool>>,
    /// Kept frames, in arrival order.
    pub kept: Seq<FrameView>,
    /// Original stream index of each kept frame.
    pub kept_indices: Seq<int>,
    /// Original stream indices of the dropped frames.
    pub removed_indices: Seq<int>,
    /// Distance recorded for every frame compared against a baseline.
    pub differences: Seq<int>,
}

/// Whether a frame at Hamming distance `dist` from the baseline is a
/// near-duplicate that must be dropped: its difference ratio
/// `dist / MAX_DISTANCE` lies strictly below `1 - sensitivity`.
pub open spec fn drops_frame(sensitivity_ppm: int, dist: int) -> bool {
    dist * (SENSITIVITY_DENOM as int) < (MAX_DISTANCE as int) * ((SENSITIVITY_DENOM as int)
        - sensitivity_ppm)
}

/// The state of a fresh session.
pub open spec fn init_model(sensitivity_ppm: int) -> AnalyzerModel {
    AnalyzerModel {
        sensitivity_ppm: sensitivity_ppm,
        total: 0,
        baseline: Option::None,
        kept: Seq::empty(),
        kept_indices: Seq::empty(),
        removed_indices: Seq::empty(),
        differences: Seq::empty(),
    }
}

/// One step of the streaming pass: the very first frame is kept
/// unconditionally; afterwards the frame's distance to the baseline is
/// recorded and decides whether the frame is dropped (baseline unchanged)
/// or kept (and becomes the new baseline).
pub open spec fn step(m: AnalyzerModel, f: FrameView) -> AnalyzerModel {
    match m.baseline {
        Option::None => AnalyzerModel {
            total: m.total + 1,
            baseline: Option::Some(frame_fp(f)),
            kept: m.kept.push(f),
            kept_indices: m.kept_indices.push(m.total),
            ..m
        },
        Option::Some(b) => {
            let d = hamming(frame_fp(f), b) as int;
            if drops_frame(m.sensitivity_ppm, d) {
                AnalyzerModel {
                    total: m.total + 1,
                    differences: m.differences.push(d),
                    removed_indices: m.removed_indices.push(m.total),
                    ..m
                }
            } else {
                AnalyzerModel {
                    total: m.total + 1,
                    differences: m.differences.push(d),
                    baseline: Option::Some(frame_fp(f)),
                    kept: m.kept.push(f),
                    kept_indices: m.kept_indices.push(m.total),
                    ..m
                }
            }
        },
    }
}

/// The state after processing a whole stream of frames in order.
pub open spec fn run_model(m: AnalyzerModel, frames: Seq<FrameView>) -> AnalyzerModel
    decreases frames.len(),
{
    if frames.len() == 0 {
        m
    } else {
        step(run_model(m, frames.drop_last()), frames.last())
    }
}

pub open spec fn strictly_increasing(s: Seq<int>) -> bool {
    forall|i: int, j: int| 0 <= i < j < s.len() ==> s[i] < s[j]
}

/// Every state reachable by a session satisfies this invariant; in
/// particular the baseline is always the fingerprint of the last kept frame
/// and the kept and removed index lists partition the processed stream.
pub open spec fn wf_model(m: AnalyzerModel) -> bool {
    &&& 0 <= m.sensitivity_ppm <= SENSITIVITY_DENOM
    &&& m.kept.len() == m.kept_indices.len()
    &&& m.kept.len() + m.removed_indices.len() == m.total
    &&& m.differences.len() == (if m.total == 0 {
        0int
    } else {
        m.total - 1
    })
    &&& match m.baseline {
        Option::None => m.total == 0,
        Option::Some(b) => m.kept.len() > 0 && b == frame_fp(m.kept.last()),
    }
    &&& forall|i: int| 0 <= i < m.kept.len() ==> (#[trigger] m.kept[i]).wf()
    &&& strictly_increasing(m.removed_indices)
    &&& strictly_increasing(m.kept_indices)
    &&& forall|i: int| 0 <= i < m.removed_indices.len() ==> 0 <= #[trigger] m.removed_indices[i]
        < m.total
    &&& forall|i: int| 0 <= i < m.kept_indices.len() ==> 0 <= #[trigger] m.kept_indices[i]
        < m.total
    &&& forall|i: int, j: int|
        #![trigger m.removed_indices[i], m.kept_indices[j]]
        0 <= i < m.removed_indices.len() && 0 <= j < m.kept_indices.len()
            ==> m.removed_indices[i] != m.kept_indices[j]
}

/// Baseline invariant: whenever a baseline exists, it is the fingerprint of
/// the most recently kept frame — never of a dropped frame.
pub proof fn lemma_baseline_is_last_kept(m: AnalyzerModel)
    requires
        wf_model(m),
        m.baseline is Some,
    ensures
        m.kept.len() > 0,
        m.baseline == Option::Some(frame_fp(m.kept.last())),
{
}

/// Monotonic indices: the removed indices are strictly increasing, disjoint
/// from the kept indices, and together with the kept frames account for
/// every processed frame.
pub proof fn lemma_index_partition(m: AnalyzerModel)
    requires
        wf_model(m),
    ensures
        strictly_increasing(m.removed_indices),
        m.kept.len() + m.removed_indices.len() == m.total,
        forall|i: int, j: int|
            #![trigger m.removed_indices[i], m.kept_indices[j]]
            0 <= i < m.removed_indices.len() && 0 <= j < m.kept_indices.len()
                ==> m.removed_indices[i] != m.kept_indices[j],
{
}

/// Processing one more well-formed frame preserves the session invariant.
pub proof fn lemma_step_preserves_wf(m: AnalyzerModel, f: FrameView)
    requires
        wf_model(m),
        f.wf(),
    ensures
        wf_model(step(m, f)),
{
    let m2 = step(m, f);
    assert forall|i: int| 0 <= i < m2.kept.len() implies (#[trigger] m2.kept[i]).wf() by {
        if i < m.kept.len() {
            assert(m2.kept[i] == m.kept[i]);
        }
    }
    assert forall|i: int, j: int| 0 <= i < j < m2.removed_indices.len() implies
        m2.removed_indices[i] < m2.removed_indices[j] by {
        if j < m.removed_indices.len() {
        } else {
            assert(m2.removed_indices[i] == m.removed_indices[i]);
        }
    }
    assert forall|i: int, j: int| 0 <= i < j < m2.kept_indices.len() implies
        m2.kept_indices[i] < m2.kept_indices[j] by {
        if j < m.kept_indices.len() {
        } else {
            assert(m2.kept_indices[i] == m.kept_indices[i]);
        }
    }
}

/// Any number of steps over well-formed frames preserves the session
/// invariant, so every state an analyzer can reach satisfies it.
pub proof fn lemma_run_preserves_wf(m: AnalyzerModel, frames: Seq<FrameView>)
    requires
        wf_model(m),
        forall|i: int| 0 <= i < frames.len() ==> (#[trigger] frames[i]).wf(),
    ensures
        wf_model(run_model(m, frames)),
    decreases frames.len(),
{
    if frames.len() > 0 {
        assert forall|i: int| 0 <= i < frames.drop_last().len() implies (#[trigger] frames.drop_last()[i]).wf() by {
            assert(frames.drop_last()[i] == frames[i]);
        }
        lemma_run_preserves_wf(m, frames.drop_last());
        assert(frames.last() == frames[frames.len() - 1]);
        lemma_step_preserves_wf(run_model(m, frames.drop_last()), frames.last());
    }
}

/// Determinism: a run is a mathematical function of the start state and the
/// frame stream, so processing the same stream twice from the same state
/// yields identical kept frames, removed indices and distances.
pub proof fn lemma_run_deterministic(
    m1: AnalyzerModel,
    m2: AnalyzerModel,
    frames1: Seq<FrameView>,
    frames2: Seq<FrameView>,
)
    requires
        m1 == m2,
        frames1 == frames2,
    ensures
        run_model(m1, frames1) == run_model(m2, frames2),
{
}

/// Sensitivity 0: every frame after the first lies strictly inside the drop
/// threshold unless it differs maximally, so exactly one frame — the first —
/// is kept from any non-empty stream without a maximally different frame.
pub proof fn lemma_sensitivity_zero_keeps_one(frames: Seq<FrameView>)
    requires
        frames.len() >= 1,
        forall|i: int| 1 <= i < frames.len() ==> hamming(
            frame_fp(#[trigger] frames[i]),
            frame_fp(frames[0]),
        ) < MAX_DISTANCE,
    ensures
        run_model(init_model(0), frames).kept == seq![frames[0]],
        run_model(init_model(0), frames).baseline == Option::Some(frame_fp(frames[0])),
        run_model(init_model(0), frames).removed_indices.len() == frames.len() - 1,
        run_model(init_model(0), frames).sensitivity_ppm == 0,
    decreases frames.len(),
{
    if frames.len() == 1 {
        assert(frames.drop_last().len() == 0);
        assert(frames.last() == frames[0]);
        assert(run_model(init_model(0), frames).kept =~= seq![frames[0]]);
    } else {
        let prefix = frames.drop_last();
        assert(prefix[0] == frames[0]);
        assert forall|i: int| 1 <= i < prefix.len() implies hamming(
            frame_fp(#[trigger] prefix[i]),
            frame_fp(prefix[0]),
        ) < MAX_DISTANCE by {
            assert(prefix[i] == frames[i]);
        }
        lemma_sensitivity_zero_keeps_one(prefix);
        let prior = run_model(init_model(0), prefix);
        assert(frames.last() == frames[frames.len() - 1]);
        let d = hamming(frame_fp(frames.last()), frame_fp(frames[0])) as int;
        assert(d < MAX_DISTANCE);
        assert(drops_frame(0, d));
        assert(run_model(init_model(0), frames) == step(prior, frames.last()));
        assert(run_model(init_model(0), frames).kept =~= seq![frames[0]]);
    }
}

/// Sensitivity 1: the drop test compares the distance against zero, and a
/// ratio strictly below zero is impossible, so every frame is kept — even
/// one at distance exactly 0 from the baseline.
pub proof fn lemma_sensitivity_full_drops_none(m: AnalyzerModel, f: FrameView)
    requires
        m.sensitivity_ppm == SENSITIVITY_DENOM,
    ensures
        step(m, f).removed_indices == m.removed_indices,
        step(m, f).kept == m.kept.push(f),
{
}

proof fn lemma_map_values_push<A, B>(s: Seq<A>, f: spec_fn(A) -> B, x: A)
    ensures
        s.push(x).map_values(f) == s.map_values(f).push(f(x)),
{
    assert(s.push(x).map_values(f) =~= s.map_values(f).push(f(x)));
}

/// Holds the final results of the frame analysis.
pub struct AnalysisResult {
    pub kept_frames: Vec<Frame>,
    pub differences: Vec<u32>,
    pub removed_indices: Vec<usize>,
}

/// A stateful analyzer that processes frames one at a time, holding only
/// one prior fingerprint, so memory use does not grow with the stream.
pub struct FrameAnalyzer {
    sensitivity_ppm: u32,
    frame_index: usize,
    last_hash: Option<Vec<bool>>,
    kept_frames: Vec<Frame>,
    differences: Vec<u32>,
    removed_indices: Vec<usize>,
    kept_indices: Ghost<Seq<int>>,
}

impl View for FrameAnalyzer {
    type V = AnalyzerModel;

    closed spec fn view(&self) -> AnalyzerModel {
        AnalyzerModel {
            sensitivity_ppm: self.sensitivity_ppm as int,
            total: self.frame_index as int,
            baseline: match self.last_hash {
                Option::Some(h) => Option::Some(h@),
                Option::None => Option::None,
            },
            kept: self.kept_frames@.map_values(|f: Frame| f@),
            kept_indices: self.kept_indices@,
            removed_indices: self.removed_indices@.map_values(|i: usize| i as int),
            differences: self.differences@.map_values(|d: u32| d as int),
        }
    }
}

impl FrameAnalyzer {
    pub closed spec fn wf(self) -> bool {
        &&& wf_model(self@)
        &&& (self.last_hash matches Option::Some(h) ==> h@.len() == FINGERPRINT_BITS)
    }

    /// Creates a new, initialized analyzer. `sensitivity_ppm` carries the
    /// sensitivity in millionths: 0 keeps only the first frame, 1000000
    /// keeps every frame; values above the denominator are rejected.
    pub fn new(sensitivity_ppm: u32) -> (r: Result<FrameAnalyzer, ConfigError>)
        ensures
            r is Ok <==> sensitivity_ppm <= SENSITIVITY_DENOM,
            r matches Ok(a) ==> a@ == init_model(sensitivity_ppm as int) && a.wf(),
    {
        if sensitivity_ppm > SENSITIVITY_DENOM {
            return Err(ConfigError);
        }
        let analyzer = FrameAnalyzer {
            sensitivity_ppm,
            frame_index: 0,
            last_hash: None,
            kept_frames: Vec::new(),
            differences: Vec::new(),
            removed_indices: Vec::new(),
            kept_indices: Ghost(Seq::empty()),
        };
        proof {
            assert(analyzer@ =~= init_model(sensitivity_ppm as int));
        }
        Ok(analyzer)
    }

    /// Processes a single frame: fingerprints it, compares it to the
    /// baseline, and either keeps it (making it the new baseline) or records
    /// its stream index as removed. The stream index advances either way.
    pub fn process_frame(&mut self, frame: Frame)
        requires
            old(self).wf(),
            frame.wf(),
            old(self)@.total < usize::MAX,
        ensures
            final(self).wf(),
            final(self)@ == step(old(self)@, frame@),
    {
        proof {
            lemma_step_preserves_wf(old(self)@, frame@);
        }
        let fp = perceptual_fingerprint(&frame, HASH_DIM, HASH_DIM);
        assert(fp@.len() == FINGERPRINT_BITS);
        if let Some(prev) = &self.last_hash {
            let dist = hamming_distance(&fp, prev);
            self.differences.push(dist);
            proof {
                lemma_map_values_push(
                    old(self).differences@,
                    |d: u32| d as int,
                    dist,
                );
            }
            let headroom = SENSITIVITY_DENOM - self.sensitivity_ppm;
            if (dist as u64) * (SENSITIVITY_DENOM as u64) < (MAX_DISTANCE as u64) * (
            headroom as u64) {
                self.removed_indices.push(self.frame_index);
                proof {
                    lemma_map_values_push(
                        old(self).removed_indices@,
                        |i: usize| i as int,
                        old(self).frame_index,
                    );
                }
                self.frame_index = self.frame_index + 1;
                proof {
                    assert(self@ =~~= step(old(self)@, frame@));
                }
                return ;
            }
        }
        self.kept_frames.push(frame);
        proof {
            lemma_map_values_push(old(self).kept_frames@, |f: Frame| f@, frame);
        }
        self.kept_indices = Ghost(self.kept_indices@.push(self.frame_index as int));
        self.last_hash = Some(fp);
        self.frame_index = self.frame_index + 1;
        proof {
            assert(self@ =~~= step(old(self)@, frame@));
        }
    }

    /// Finalizes the analysis and hands back the kept frames together with
    /// the per-comparison distances and the removed stream indices.
    pub fn finish(self) -> (r: AnalysisResult)
        requires
            self.wf(),
        ensures
            r.kept_frames@.map_values(|f: Frame| f@) == self@.kept,
            r.removed_indices@.map_values(|i: usize| i as int) == self@.removed_indices,
            r.differences@.map_values(|d: u32| d as int) == self@.differences,
            r.kept_frames@.len() + r.removed_indices@.len() == self@.total,
            forall|i: int| 0 <= i < r.kept_frames@.len() ==> (#[trigger] r.kept_frames@[i]).wf(),
    {
        proof {
            assert forall|i: int| 0 <= i < self.kept_frames@.len() implies (
            #[trigger] self.kept_frames@[i]).wf() by {
                assert(self@.kept[i] == self.kept_frames@[i]@);
            }
        }
        AnalysisResult {
            kept_frames: self.kept_frames,
            differences: self.differences,
            removed_indices: self.removed_indices,
        }
    }
}

} // verus!

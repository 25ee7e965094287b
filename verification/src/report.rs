use vstd::prelude::*;
use crate::frame_analyzer::AnalysisResult;

verus! {

/// The decimal digit characters, used to spell numbers.
pub open spec fn spec_digit(d: int) -> char {
    "0123456789"@[d]
}

/// The decimal spelling of a number, most significant digit first.
pub open spec fn spec_decimal(n: nat) -> Seq<char>
    decreases n,
{
    if n < 10 {
        seq![spec_digit(n as int)]
    } else {
        spec_decimal(n / 10).push(spec_digit((n % 10) as int))
    }
}

/// Spells a number in decimal.
pub fn u64_to_string(n: u64) -> (s: String)
    ensures
        s@ == spec_decimal(n as nat),
    decreases n,
{
    let digits = "0123456789";
    proof {
        reveal_strlit("0123456789");
    }
    let d = (n % 10) as usize;
    let ds = digits.substring_ascii(d, d + 1);
    proof {
        assert(ds@ =~= seq![spec_digit((n % 10) as int)]);
    }
    if n < 10 {
        ds.to_owned()
    } else {
        let mut s = u64_to_string(n / 10);
        s.append(ds);
        proof {
            assert(s@ =~= spec_decimal((n / 10) as nat).push(spec_digit((n % 10) as int)));
        }
        s
    }
}

/// The body of a decimal list: the numbers, comma-separated.
pub open spec fn spec_list_body(xs: Seq<u64>) -> Seq<char>
    decreases xs.len(),
{
    if xs.len() == 0 {
        Seq::empty()
    } else if xs.len() == 1 {
        spec_decimal(xs[0] as nat)
    } else {
        spec_list_body(xs.drop_last()) + ","@ + spec_decimal(xs.last() as nat)
    }
}

/// A decimal list in brackets, as it appears in the report.
pub open spec fn spec_list(xs: Seq<u64>) -> Seq<char> {
    "["@ + spec_list_body(xs) + "]"@
}

/// Renders a list of numbers as `[a,b,c]`.
pub fn render_u64_list(xs: &Vec<u64>) -> (s: String)
    ensures
        s@ == spec_list(xs@),
{
    let mut s = String::new();
    s.append("[");
    let mut i: usize = 0;
    while i < xs.len()
        invariant
            0 <= i <= xs@.len(),
            s@ == "["@ + spec_list_body(xs@.take(i as int)),
        decreases xs@.len() - i,
    {
        proof {
            assert(xs@.take(i + 1).drop_last() =~= xs@.take(i as int));
            assert(xs@.take(i + 1).last() == xs@[i as int]);
        }
        if i > 0 {
            s.append(",");
        }
        let d = u64_to_string(xs[i]);
        s.append(d.as_str());
        proof {
            assert(s@ =~= "["@ + spec_list_body(xs@.take(i + 1)));
        }
        i = i + 1;
    }
    s.append("]");
    proof {
        assert(xs@.take(xs@.len() as int) =~= xs@);
        assert(s@ =~= spec_list(xs@));
    }
    s
}

/// The diagnostic report as one JSON text: the frame counts, the removed
/// stream indices, and the recorded distances.
pub open spec fn spec_report(
    total_frames: u64,
    removed: Seq<u64>,
    kept: u64,
    differences: Seq<u64>,
) -> Seq<char> {
    "{\"total_frames\":"@ + spec_decimal(total_frames as nat) + ",\"removed\":"@ + spec_decimal(
        removed.len() as nat,
    ) + ",\"kept\":"@ + spec_decimal(kept as nat) + ",\"removed_indices\":"@ + spec_list(removed)
        + ",\"differences\":"@ + spec_list(differences) + "}"@
}

/// Renders the diagnostic report of an analysis as JSON.
pub fn render_report(
    total_frames: u64,
    removed: &Vec<u64>,
    kept: u64,
    differences: &Vec<u64>,
) -> (s: String)
    requires
        removed@.len() <= u64::MAX,
    ensures
        s@ == spec_report(total_frames, removed@, kept, differences@),
{
    let mut s = String::new();
    s.append("{\"total_frames\":");
    let t = u64_to_string(total_frames);
    s.append(t.as_str());
    s.append(",\"removed\":");
    let rc = u64_to_string(removed.len() as u64);
    s.append(rc.as_str());
    s.append(",\"kept\":");
    let kc = u64_to_string(kept);
    s.append(kc.as_str());
    s.append(",\"removed_indices\":");
    let rl = render_u64_list(removed);
    s.append(rl.as_str());
    s.append(",\"differences\":");
    let dl = render_u64_list(differences);
    s.append(dl.as_str());
    s.append("}");
    proof {
        assert(s@ =~= spec_report(total_frames, removed@, kept, differences@));
    }
    s
}

/// Widens a list of stream indices for rendering.
pub fn usize_vec_to_u64(xs: &Vec<usize>) -> (r: Vec<u64>)
    ensures
        r@ == xs@.map_values(|x: usize| x as u64),
        r@.len() == xs@.len(),
{
    let mut r: Vec<u64> = Vec::new();
    let mut i: usize = 0;
    while i < xs.len()
        invariant
            0 <= i <= xs@.len(),
            r@ =~= xs@.take(i as int).map_values(|x: usize| x as u64),
        decreases xs@.len() - i,
    {
        r.push(xs[i] as u64);
        proof {
            assert(xs@.take(i + 1).drop_last() =~= xs@.take(i as int));
            assert(r@ =~= xs@.take(i + 1).map_values(|x: usize| x as u64));
        }
        i = i + 1;
    }
    proof {
        assert(xs@.take(xs@.len() as int) =~= xs@);
    }
    r
}

/// Widens a list of distances for rendering.
pub fn u32_vec_to_u64(xs: &Vec<u32>) -> (r: Vec<u64>)
    ensures
        r@ == xs@.map_values(|x: u32| x as u64),
        r@.len() == xs@.len(),
{
    let mut r: Vec<u64> = Vec::new();
    let mut i: usize = 0;
    while i < xs.len()
        invariant
            0 <= i <= xs@.len(),
            r@ =~= xs@.take(i as int).map_values(|x: u32| x as u64),
        decreases xs@.len() - i,
    {
        r.push(xs[i] as u64);
        proof {
            assert(xs@.take(i + 1).drop_last() =~= xs@.take(i as int));
            assert(r@ =~= xs@.take(i + 1).map_values(|x: u32| x as u64));
        }
        i = i + 1;
    }
    proof {
        assert(xs@.take(xs@.len() as int) =~= xs@);
    }
    r
}

/// Renders the diagnostic report for an analysis result. The total is the
/// sum of kept and removed counts, which equals the number of frames that
/// the analyzer processed.
pub fn render_analysis_report(result: &AnalysisResult) -> (s: String)
    requires
        result.kept_frames@.len() + result.removed_indices@.len() <= u64::MAX,
    ensures
        s@ == spec_report(
            (result.kept_frames@.len() + result.removed_indices@.len()) as u64,
            result.removed_indices@.map_values(|x: usize| x as u64),
            result.kept_frames@.len() as u64,
            result.differences@.map_values(|x: u32| x as u64),
        ),
{
    let removed = usize_vec_to_u64(&result.removed_indices);
    let differences = u32_vec_to_u64(&result.differences);
    let total = (result.kept_frames.len() as u64) + (result.removed_indices.len() as u64);
    render_report(total, &removed, result.kept_frames.len() as u64, &differences)
}

} // verus!

use vstd::prelude::*;

verus! {

/// The pixels of a decoded frame with its row padding removed: the first
/// `width * 3` bytes of each of the `rows` rows, each row starting `stride`
/// bytes after the previous one, concatenated.
pub open spec fn spec_packed_rows(data: Seq<u8>, width: int, stride: int, rows: int) -> Seq<u8>
    decreases rows,
{
    if rows <= 0 {
        Seq::empty()
    } else {
        spec_packed_rows(data, width, stride, rows - 1) + data.subrange(
            (rows - 1) * stride,
            (rows - 1) * stride + width * 3,
        )
    }
}

proof fn lemma_packed_rows_len(data: Seq<u8>, width: int, stride: int, rows: int)
    requires
        0 <= rows,
        0 <= width,
        forall|y: int| 0 <= y < rows ==> #[trigger] (y * stride) + width * 3 <= data.len()
            && 0 <= y * stride,
    ensures
        spec_packed_rows(data, width, stride, rows).len() == rows * (width * 3),
    decreases rows,
{
    if rows > 0 {
        lemma_packed_rows_len(data, width, stride, rows - 1);
        assert((rows - 1) * stride + width * 3 <= data.len() && 0 <= (rows - 1) * stride);
        assert(data.subrange((rows - 1) * stride, (rows - 1) * stride + width * 3).len() == width
            * 3);
        assert(spec_packed_rows(data, width, stride, rows) == spec_packed_rows(
            data,
            width,
            stride,
            rows - 1,
        ) + data.subrange((rows - 1) * stride, (rows - 1) * stride + width * 3));
        assert(spec_packed_rows(data, width, stride, rows).len() == spec_packed_rows(
            data,
            width,
            stride,
            rows - 1,
        ).len() + width * 3);
        assert(rows * (width * 3) == (rows - 1) * (width * 3) + width * 3) by (nonlinear_arith);
    } else {
        assert(rows * (width * 3) == 0) by (nonlinear_arith)
            requires
                rows == 0,
        ;
    }
}

/// Copies a decoded frame's pixel rows into a tightly packed RGB buffer,
/// dropping the per-row padding that the decoder leaves after each row.
/// Fails when the stride is zero or a row would reach past the end of the
/// buffer, exactly as the decoder's own accounting would.
pub fn pack_frame_rows(data: &[u8], width: u32, height: u32, stride: usize) -> (r: Option<
    Vec<u8>,
>)
    ensures
        r is Some <==> (stride >= 1 && forall|y: int|
            0 <= y < height ==> #[trigger] (y * stride) + width * 3 <= data@.len()),
        r matches Some(v) ==> v@ == spec_packed_rows(
            data@,
            width as int,
            stride as int,
            height as int,
        ) && v@.len() == width * height * 3,
{
    if stride == 0 {
        return None;
    }
    let mut out: Vec<u8> = Vec::new();
    let mut y: u32 = 0;
    while y < height
        invariant
            0 <= y <= height,
            stride >= 1,
            forall|yy: int| 0 <= yy < y ==> #[trigger] (yy * stride) + width * 3 <= data@.len(),
            out@ == spec_packed_rows(data@, width as int, stride as int, y as int),
        decreases height - y,
    {
        proof {
            assert(0 <= (y as int) * (stride as int) <= 0xFFFF_FFFF * 0xFFFF_FFFF_FFFF_FFFF)
                by (nonlinear_arith)
                requires
                    0 <= (y as int) <= 0xFFFF_FFFF,
                    0 <= (stride as int) <= 0xFFFF_FFFF_FFFF_FFFF,
            ;
        }
        let start_wide: u128 = (y as u128) * (stride as u128);
        let end_wide: u128 = start_wide + (width as u128) * 3;
        if end_wide > (data.len() as u128) {
            proof {
                assert((y as int) * (stride as int) + width * 3 > data@.len());
            }
            return None;
        }
        let start: usize = start_wide as usize;
        let w3: usize = (width as usize) * 3;
        let ghost row_base = spec_packed_rows(data@, width as int, stride as int, y as int);
        let mut k: usize = 0;
        while k < w3
            invariant
                0 <= k <= w3,
                w3 == width * 3,
                start == (y as int) * (stride as int),
                start + w3 <= data@.len(),
                data@.len() <= usize::MAX,
                out@ == row_base + data@.subrange(start as int, start + k),
                row_base == spec_packed_rows(data@, width as int, stride as int, y as int),
            decreases w3 - k,
        {
            let b = data[start + k];
            out.push(b);
            proof {
                assert(data@.subrange(start as int, start + k + 1) =~= data@.subrange(
                    start as int,
                    start + k,
                ).push(data@[start + k]));
            }
            k = k + 1;
        }
        proof {
            assert(out@ =~= spec_packed_rows(data@, width as int, stride as int, y + 1));
        }
        y = y + 1;
    }
    proof {
        lemma_packed_rows_len(data@, width as int, stride as int, height as int);
        assert((height * (width * 3)) == width * height * 3) by (nonlinear_arith);
    }
    Some(out)
}

/// Rounded division `a / b` for positive operands: the nearest integer,
/// halves rounded up.
pub open spec fn spec_rounded_div(a: int, b: int) -> int {
    (2 * a + b) / (2 * b)
}

/// Decides the frame count of a video from its container metadata: the
/// container's own count when it has one, otherwise the duration (in
/// microseconds) times the average frame rate `rate_num / rate_den`,
/// rounded; nothing when neither is usable.
pub fn frame_count_from_metadata(
    container_frames: i64,
    duration_us: i64,
    rate_num: i32,
    rate_den: i32,
) -> (r: Option<u64>)
    ensures
        container_frames > 0 ==> r == Some(container_frames as u64),
        container_frames <= 0 && duration_us > 0 && rate_num > 0 && rate_den > 0 ==> ({
            let est = spec_rounded_div(duration_us * rate_num, 1000000 * rate_den);
            (est <= u64::MAX ==> r == Some(est as u64)) && (est > u64::MAX ==> r == Some(
                u64::MAX,
            ))
        }),
        container_frames <= 0 && !(duration_us > 0 && rate_num > 0 && rate_den > 0) ==> r
            is None,
{
    if container_frames > 0 {
        return Some(container_frames as u64);
    }
    if duration_us > 0 && rate_num > 0 && rate_den > 0 {
        proof {
            assert(0 < (duration_us as int) * (rate_num as int) <= 0x7FFF_FFFF_FFFF_FFFF
                * 0x7FFF_FFFF) by (nonlinear_arith)
                requires
                    0 < (duration_us as int) <= 0x7FFF_FFFF_FFFF_FFFF,
                    0 < (rate_num as int) <= 0x7FFF_FFFF,
            ;
        }
        let a: u128 = (duration_us as u128) * (rate_num as u128);
        let b: u128 = 1000000u128 * (rate_den as u128);
        let est: u128 = (2 * a + b) / (2 * b);
        if est > (u64::MAX as u128) {
            Some(u64::MAX)
        } else {
            Some(est as u64)
        }
    } else {
        None
    }
}

} // verus!

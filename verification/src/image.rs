use vstd::prelude::*;

verus! {

/// One WebP encoding of a screenshot: lossless, or lossy at a quality (in percent).
#[derive(Clone, Copy, Debug)]
pub enum WebpPass {
    Lossless,
    Lossy(i32),
}

/// The largest size, in bytes, that a compressed screenshot may have.
pub open spec fn size_limit() -> int {
    10 * 1000 * 1000 - 1
}

/// The pass that follows `done`, given the size of its output: none once the
/// output is small enough; after the lossless pass a lossy one at quality
/// 100, and after a lossy pass another one at a quality ten lower.
pub open spec fn following_pass(done: WebpPass, output_size: int) -> Option<WebpPass> {
    if output_size <= size_limit() {
        None
    } else {
        match done {
            WebpPass::Lossless => Some(WebpPass::Lossy(100)),
            WebpPass::Lossy(q) => Some(WebpPass::Lossy((q - 10) as i32)),
        }
    }
}

/// The first pass of the compression: lossless.
pub fn webp_first_pass() -> (r: WebpPass)
    ensures
        r == WebpPass::Lossless,
{
    WebpPass::Lossless
}

/// The next pass of the compression, or `None` when the output of `done`
/// fits in the limit.
pub fn webp_next_pass(done: WebpPass, output_size: u64) -> (r: Option<WebpPass>)
    requires
        done matches WebpPass::Lossy(q) ==> q >= i32::MIN + 10,
    ensures
        r == following_pass(done, output_size as int),
{
    let limit: u64 = 10 * 1000 * 1000 - 1;
    match done {
        WebpPass::Lossless => {
            if output_size < limit {
                return None;
            }
            if output_size > limit {
                Some(WebpPass::Lossy(100))
            } else {
                None
            }
        },
        WebpPass::Lossy(q) => {
            if output_size > limit {
                Some(WebpPass::Lossy(q - 10))
            } else {
                None
            }
        },
    }
}

} // verus!

verus! {

/// A lossy pass whose output is still above 9 999 999 bytes is followed by
/// another lossy pass exactly ten quality points lower, so the quality keeps
/// falling while the output is too large.
pub proof fn lemma_quality_falls_by_ten(q: i32, output_size: int)
    requires
        output_size > 9_999_999,
        q >= i32::MIN + 10,
    ensures
        (following_pass(WebpPass::Lossy(q), output_size) matches Some(WebpPass::Lossy(r)) && r == q
            - 10 && r < q),
{
}

/// The first lossy pass, after a lossless output above 9 999 999 bytes, is at quality 100.
pub proof fn lemma_lossy_starts_at_100(output_size: int)
    requires
        output_size > 9_999_999,
    ensures
        (following_pass(WebpPass::Lossless, output_size) matches Some(WebpPass::Lossy(r)) && r == 100),
{
}

/// Once an output has 9 999 999 bytes or fewer, compression stops, whatever the pass was.
pub proof fn lemma_small_output_stops(done: WebpPass, output_size: int)
    requires
        output_size <= 9_999_999,
    ensures
        following_pass(done, output_size) is None,
{
}

} // verus!

//! The order and selection of the full pipeline's stages.
//!
//! The pixel work of each stage runs outside this module; what is decided
//! here is which stages run for a configuration, a scene and the facts
//! measured on the first frame, in which order, and what progress each
//! one reports.
use vstd::prelude::*;

use crate::pipeline::scene::{PipelineConfig, Scene};

verus! {

/// One stage of the full pipeline.
#[derive(Debug, Clone, Copy, PartialEq, Eq, Structural)]
pub enum PipelineStage {
    Decode,
    WhiteBalance,
    ColorGrade,
    HdrMerge,
    StackFrames,
    Denoise,
    Enhance,
    ExposureLift,
    ToneMap,
    Sharpen,
    SuperResolution,
    FaceEnhance,
    Bokeh,
    Save,
    Done,
}

/// The number of stages.
pub open spec fn stage_count() -> nat {
    15
}

/// The position of each stage in the pipeline's fixed order.
pub open spec fn stage_rank(s: PipelineStage) -> nat {
    match s {
        PipelineStage::Decode => 0,
        PipelineStage::WhiteBalance => 1,
        PipelineStage::ColorGrade => 2,
        PipelineStage::HdrMerge => 3,
        PipelineStage::StackFrames => 4,
        PipelineStage::Denoise => 5,
        PipelineStage::Enhance => 6,
        PipelineStage::ExposureLift => 7,
        PipelineStage::ToneMap => 8,
        PipelineStage::Sharpen => 9,
        PipelineStage::SuperResolution => 10,
        PipelineStage::FaceEnhance => 11,
        PipelineStage::Bokeh => 12,
        PipelineStage::Save => 13,
        PipelineStage::Done => 14,
    }
}

/// The stage at a position of the fixed order.
pub open spec fn stage_at_rank(k: nat) -> PipelineStage {
    if k == 0 {
        PipelineStage::Decode
    } else if k == 1 {
        PipelineStage::WhiteBalance
    } else if k == 2 {
        PipelineStage::ColorGrade
    } else if k == 3 {
        PipelineStage::HdrMerge
    } else if k == 4 {
        PipelineStage::StackFrames
    } else if k == 5 {
        PipelineStage::Denoise
    } else if k == 6 {
        PipelineStage::Enhance
    } else if k == 7 {
        PipelineStage::ExposureLift
    } else if k == 8 {
        PipelineStage::ToneMap
    } else if k == 9 {
        PipelineStage::Sharpen
    } else if k == 10 {
        PipelineStage::SuperResolution
    } else if k == 11 {
        PipelineStage::FaceEnhance
    } else if k == 12 {
        PipelineStage::Bokeh
    } else if k == 13 {
        PipelineStage::Save
    } else {
        PipelineStage::Done
    }
}

/// The progress (in thousandths) that a stage reports when it starts, if it reports any.
pub open spec fn spec_stage_progress(s: PipelineStage) -> Option<u16> {
    match s {
        PipelineStage::Decode => Some(40u16),
        PipelineStage::WhiteBalance => Some(80u16),
        PipelineStage::ColorGrade => Some(130u16),
        PipelineStage::HdrMerge => Some(220u16),
        PipelineStage::StackFrames => Some(220u16),
        PipelineStage::Denoise => Some(320u16),
        PipelineStage::Enhance => Some(400u16),
        PipelineStage::ExposureLift => None,
        PipelineStage::ToneMap => Some(500u16),
        PipelineStage::Sharpen => Some(580u16),
        PipelineStage::SuperResolution => Some(680u16),
        PipelineStage::FaceEnhance => Some(760u16),
        PipelineStage::Bokeh => Some(840u16),
        PipelineStage::Save => Some(950u16),
        PipelineStage::Done => Some(1000u16),
    }
}

/// The label that a stage reports with its progress, if it reports any.
pub open spec fn spec_stage_label(s: PipelineStage) -> Option<Seq<char>> {
    match s {
        PipelineStage::Decode => Some("Decoding..."@),
        PipelineStage::WhiteBalance => Some("White balance..."@),
        PipelineStage::ColorGrade => Some("Color grading..."@),
        PipelineStage::HdrMerge => Some("HDR merge..."@),
        PipelineStage::StackFrames => Some("Stacking frames..."@),
        PipelineStage::Denoise => Some("Denoising..."@),
        PipelineStage::Enhance => Some("Enhancing..."@),
        PipelineStage::ExposureLift => None,
        PipelineStage::ToneMap => Some("Tone mapping..."@),
        PipelineStage::Sharpen => Some("Sharpening..."@),
        PipelineStage::SuperResolution => Some("Enhancing detail..."@),
        PipelineStage::FaceEnhance => Some("Face enhancement..."@),
        PipelineStage::Bokeh => Some("Applying bokeh..."@),
        PipelineStage::Save => Some("Saving..."@),
        PipelineStage::Done => Some("Done"@),
    }
}

/// What the planner knows before any stage runs.
#[derive(Debug, Clone, Copy)]
pub struct PlanInputs {
    /// The number of burst frames handed in.
    pub frame_count: usize,
    /// The first frame's noise estimate is at least the denoising threshold.
    pub noisy: bool,
    /// The first frame's mean luma is at most the enhancement threshold.
    pub dim: bool,
    /// The decoded width of the first frame.
    pub width: u32,
    /// The decoded height of the first frame.
    pub height: u32,
}

/// The largest pixel count (exclusive) that super-resolution still upscales.
pub open spec fn super_res_pixel_limit() -> int {
    8_000_000
}

/// Whether a stage runs for a configuration, a scene and the planner's inputs.
pub open spec fn spec_stage_runs(c: PipelineConfig, scene: Scene, i: PlanInputs, s: PipelineStage) -> bool {
    match s {
        PipelineStage::HdrMerge => c.run_hdr && i.frame_count > 1,
        PipelineStage::StackFrames => !c.run_hdr && i.frame_count > 1,
        PipelineStage::Denoise => c.run_denoiser && i.noisy,
        PipelineStage::Enhance => c.run_enhancer && i.dim,
        PipelineStage::SuperResolution => c.run_super_res && (i.width as int) * (i.height as int)
            < super_res_pixel_limit(),
        PipelineStage::FaceEnhance => scene == Scene::Portrait,
        PipelineStage::Bokeh => c.run_depth,
        _ => true,
    }
}

/// The stages of rank below `k` that run, in rank order.
pub open spec fn spec_plan_upto(c: PipelineConfig, scene: Scene, i: PlanInputs, k: nat) -> Seq<PipelineStage>
    decreases k,
{
    if k == 0 {
        Seq::empty()
    } else {
        let prev = spec_plan_upto(c, scene, i, (k - 1) as nat);
        let s = stage_at_rank((k - 1) as nat);
        if spec_stage_runs(c, scene, i, s) {
            prev.push(s)
        } else {
            prev
        }
    }
}

/// The full plan: every stage that runs, in the pipeline's fixed order.
pub open spec fn spec_plan(c: PipelineConfig, scene: Scene, i: PlanInputs) -> Seq<PipelineStage> {
    spec_plan_upto(c, scene, i, stage_count())
}

proof fn lemma_plan_upto_ordered(c: PipelineConfig, scene: Scene, i: PlanInputs, k: nat)
    requires
        k <= stage_count(),
    ensures
        ({
            let p = spec_plan_upto(c, scene, i, k);
            &&& forall|a: int, b: int| 0 <= a < b < p.len() ==> stage_rank(p[a]) < stage_rank(p[b])
            &&& forall|a: int| 0 <= a < p.len() ==> stage_rank(#[trigger] p[a]) < k
            &&& forall|a: int| 0 <= a < p.len() ==> spec_stage_runs(c, scene, i, #[trigger] p[a])
            &&& k >= 1 ==> p.len() >= 1 && p[0] == PipelineStage::Decode
        }),
    decreases k,
{
    if k > 0 {
        lemma_plan_upto_ordered(c, scene, i, (k - 1) as nat);
        let prev = spec_plan_upto(c, scene, i, (k - 1) as nat);
        let s = stage_at_rank((k - 1) as nat);
        let p = spec_plan_upto(c, scene, i, k);
        assert(stage_rank(s) == k - 1);
        if k == 1 {
            assert(spec_stage_runs(c, scene, i, s));
            assert(p =~= seq![PipelineStage::Decode]);
        }
        if spec_stage_runs(c, scene, i, s) {
            assert(p == prev.push(s));
            assert forall|a: int, b: int| 0 <= a < b < p.len() implies stage_rank(p[a]) < stage_rank(p[b]) by {
                if b == p.len() - 1 {
                    assert(p[b] == s);
                    assert(p[a] == prev[a]);
                } else {
                    assert(p[a] == prev[a] && p[b] == prev[b]);
                }
            }
            assert forall|a: int| 0 <= a < p.len() implies stage_rank(#[trigger] p[a]) < k by {
                if a < prev.len() {
                    assert(p[a] == prev[a]);
                }
            }
            assert forall|a: int| 0 <= a < p.len() implies spec_stage_runs(c, scene, i, #[trigger] p[a]) by {
                if a < prev.len() {
                    assert(p[a] == prev[a]);
                }
            }
            if k > 1 {
                assert(p[0] == prev[0]);
            }
        }
    }
}

/// Two stages that may both run report progress in rank order, and strictly so.
proof fn lemma_progress_follows_rank(s: PipelineStage, t: PipelineStage)
    requires
        stage_rank(s) < stage_rank(t),
        spec_stage_progress(s) is Some,
        spec_stage_progress(t) is Some,
        !(s == PipelineStage::HdrMerge && t == PipelineStage::StackFrames),
    ensures
        spec_stage_progress(s)->0 < spec_stage_progress(t)->0,
{
}

/// Progress only moves forward: along every plan, each stage that reports
/// progress reports more than every stage before it; the plan starts by
/// decoding and ends with `Done`, which reports the whole (1000 thousandths).
pub proof fn lemma_plan_progress_moves_forward(c: PipelineConfig, scene: Scene, i: PlanInputs)
    ensures
        ({
            let p = spec_plan(c, scene, i);
            &&& p.len() >= 2
            &&& p[0] == PipelineStage::Decode
            &&& p[p.len() - 1] == PipelineStage::Done
            &&& spec_stage_progress(p[p.len() - 1]) == Some(1000u16)
            &&& forall|a: int, b: int|
                0 <= a < b < p.len() && (#[trigger] spec_stage_progress(p[a])) is Some
                    && (#[trigger] spec_stage_progress(p[b])) is Some
                    ==> spec_stage_progress(p[a])->0 < spec_stage_progress(p[b])->0
        }),
{
    let p = spec_plan(c, scene, i);
    lemma_plan_upto_ordered(c, scene, i, stage_count());
    lemma_plan_upto_ordered(c, scene, i, (stage_count() - 1) as nat);
    assert forall|a: int, b: int|
        0 <= a < b < p.len() && (#[trigger] spec_stage_progress(p[a])) is Some
            && (#[trigger] spec_stage_progress(p[b])) is Some
        implies spec_stage_progress(p[a])->0 < spec_stage_progress(p[b])->0 by {
        assert(spec_stage_runs(c, scene, i, p[a]));
        assert(spec_stage_runs(c, scene, i, p[b]));
        lemma_progress_follows_rank(p[a], p[b]);
    }
}

fn stage_at(k: usize) -> (s: PipelineStage)
    requires
        k < stage_count(),
    ensures
        s == stage_at_rank(k as nat),
        stage_rank(s) == k,
{
    match k {
        0 => PipelineStage::Decode,
        1 => PipelineStage::WhiteBalance,
        2 => PipelineStage::ColorGrade,
        3 => PipelineStage::HdrMerge,
        4 => PipelineStage::StackFrames,
        5 => PipelineStage::Denoise,
        6 => PipelineStage::Enhance,
        7 => PipelineStage::ExposureLift,
        8 => PipelineStage::ToneMap,
        9 => PipelineStage::Sharpen,
        10 => PipelineStage::SuperResolution,
        11 => PipelineStage::FaceEnhance,
        12 => PipelineStage::Bokeh,
        13 => PipelineStage::Save,
        _ => PipelineStage::Done,
    }
}

/// Whether `stage` runs for the configuration, scene and inputs.
pub fn stage_runs(config: &PipelineConfig, scene: Scene, inputs: &PlanInputs, stage: PipelineStage) -> (runs: bool)
    ensures
        runs == spec_stage_runs(*config, scene, *inputs, stage),
{
    match stage {
        PipelineStage::HdrMerge => config.run_hdr && inputs.frame_count > 1,
        PipelineStage::StackFrames => !config.run_hdr && inputs.frame_count > 1,
        PipelineStage::Denoise => config.run_denoiser && inputs.noisy,
        PipelineStage::Enhance => config.run_enhancer && inputs.dim,
        PipelineStage::SuperResolution => {
            let w: u64 = inputs.width as u64;
            let h: u64 = inputs.height as u64;
            assert(w * h <= 0xffff_ffffu64 * 0xffff_ffffu64) by (nonlinear_arith)
                requires
                    w <= 0xffff_ffffu64,
                    h <= 0xffff_ffffu64,
            ;
            let pixels: u64 = w * h;
            config.run_super_res && pixels < 8_000_000
        },
        PipelineStage::FaceEnhance => scene == Scene::Portrait,
        PipelineStage::Bokeh => config.run_depth,
        _ => true,
    }
}

/// The stages that the full pipeline runs, in order.
///
/// A pipeline needs at least one frame.
pub fn plan_pipeline(config: &PipelineConfig, scene: Scene, inputs: &PlanInputs) -> (plan: Vec<PipelineStage>)
    requires
        inputs.frame_count >= 1,
    ensures
        plan@ == spec_plan(*config, scene, *inputs),
{
    let mut plan: Vec<PipelineStage> = Vec::new();
    let mut k: usize = 0;
    while k < 15
        invariant
            k <= 15,
            plan@ == spec_plan_upto(*config, scene, *inputs, k as nat),
        decreases 15 - k,
    {
        let stage = stage_at(k);
        if stage_runs(config, scene, inputs, stage) {
            plan.push(stage);
        }
        k = k + 1;
    }
    plan
}

/// The working size of the depth pass and whether the frame is resized to it first.
#[derive(Debug, Clone, Copy, PartialEq, Eq, Structural)]
pub struct DepthPass {
    pub width: usize,
    pub height: usize,
    pub resize_input: bool,
}

/// Where super-resolution was configured, depth runs at the unscaled size on a
/// resized copy of the frame (and its result is resized back); otherwise it runs
/// on the frame at the frame's own size.
pub fn depth_pass(
    config: &PipelineConfig,
    unscaled_width: usize,
    unscaled_height: usize,
    frame_width: usize,
    frame_height: usize,
) -> (pass: DepthPass)
    ensures
        config.run_super_res ==> pass == (DepthPass {
            width: unscaled_width,
            height: unscaled_height,
            resize_input: true,
        }),
        !config.run_super_res ==> pass == (DepthPass {
            width: frame_width,
            height: frame_height,
            resize_input: false,
        }),
{
    if config.run_super_res {
        DepthPass { width: unscaled_width, height: unscaled_height, resize_input: true }
    } else {
        DepthPass { width: frame_width, height: frame_height, resize_input: false }
    }
}

impl PipelineStage {
    /// The progress, in thousandths, that the stage reports as it starts.
    pub fn progress_permille(&self) -> (p: Option<u16>)
        ensures
            p == spec_stage_progress(*self),
    {
        match self {
            PipelineStage::Decode => Some(40),
            PipelineStage::WhiteBalance => Some(80),
            PipelineStage::ColorGrade => Some(130),
            PipelineStage::HdrMerge => Some(220),
            PipelineStage::StackFrames => Some(220),
            PipelineStage::Denoise => Some(320),
            PipelineStage::Enhance => Some(400),
            PipelineStage::ExposureLift => None,
            PipelineStage::ToneMap => Some(500),
            PipelineStage::Sharpen => Some(580),
            PipelineStage::SuperResolution => Some(680),
            PipelineStage::FaceEnhance => Some(760),
            PipelineStage::Bokeh => Some(840),
            PipelineStage::Save => Some(950),
            PipelineStage::Done => Some(1000),
        }
    }

    /// The label that the stage reports as it starts.
    pub fn progress_label(&self) -> (label: Option<&'static str>)
        ensures
            label is Some <==> spec_stage_label(*self) is Some,
            label is Some ==> label->0@ == spec_stage_label(*self)->0,
    {
        match self {
            PipelineStage::Decode => Some("Decoding..."),
            PipelineStage::WhiteBalance => Some("White balance..."),
            PipelineStage::ColorGrade => Some("Color grading..."),
            PipelineStage::HdrMerge => Some("HDR merge..."),
            PipelineStage::StackFrames => Some("Stacking frames..."),
            PipelineStage::Denoise => Some("Denoising..."),
            PipelineStage::Enhance => Some("Enhancing..."),
            PipelineStage::ExposureLift => None,
            PipelineStage::ToneMap => Some("Tone mapping..."),
            PipelineStage::Sharpen => Some("Sharpening..."),
            PipelineStage::SuperResolution => Some("Enhancing detail..."),
            PipelineStage::FaceEnhance => Some("Face enhancement..."),
            PipelineStage::Bokeh => Some("Applying bokeh..."),
            PipelineStage::Save => Some("Saving..."),
            PipelineStage::Done => Some("Done"),
        }
    }
}


proof fn lemma_rank_roundtrip(s: PipelineStage)
    ensures
        stage_at_rank(stage_rank(s)) == s,
        stage_rank(s) < stage_count(),
{
}

proof fn lemma_plan_upto_has(c: PipelineConfig, scene: Scene, i: PlanInputs, k: nat, st: PipelineStage)
    requires
        k <= stage_count(),
    ensures
        spec_plan_upto(c, scene, i, k).contains(st) <==> (stage_rank(st) < k && spec_stage_runs(c, scene, i, st)),
    decreases k,
{
    if k > 0 {
        lemma_plan_upto_has(c, scene, i, (k - 1) as nat, st);
        lemma_rank_roundtrip(st);
        let prev = spec_plan_upto(c, scene, i, (k - 1) as nat);
        let s = stage_at_rank((k - 1) as nat);
        assert(stage_rank(s) == k - 1);
        if spec_stage_runs(c, scene, i, s) {
            let p = prev.push(s);
            assert(p[p.len() - 1] == s);
            if prev.contains(st) {
                let j = choose|j: int| 0 <= j < prev.len() && prev[j] == st;
                assert(p[j] == st);
            }
            if p.contains(st) {
                let j = choose|j: int| 0 <= j < p.len() && p[j] == st;
                if j < prev.len() {
                    assert(prev[j] == st);
                }
            }
        }
    }
}

/// Which stages a plan holds: decoding, white balance, colour grading, the
/// exposure lift, tone mapping, sharpening, saving and `Done` always; an HDR
/// merge when HDR is configured and there are several frames, otherwise
/// stacking when there are several frames; denoising only for a noisy first
/// frame with the denoiser on; enhancing only for a dim first frame with the
/// enhancer on; super-resolution only with it on and under 8 megapixels; face
/// enhancement only for portraits; bokeh only with depth on.
pub proof fn lemma_plan_stages(c: PipelineConfig, scene: Scene, i: PlanInputs)
    ensures
        ({
            let p = spec_plan(c, scene, i);
            &&& p.contains(PipelineStage::Decode) && p.contains(PipelineStage::WhiteBalance)
            &&& p.contains(PipelineStage::ColorGrade) && p.contains(PipelineStage::ExposureLift)
            &&& p.contains(PipelineStage::ToneMap) && p.contains(PipelineStage::Sharpen)
            &&& p.contains(PipelineStage::Save) && p.contains(PipelineStage::Done)
            &&& p.contains(PipelineStage::HdrMerge) <==> (c.run_hdr && i.frame_count >= 2)
            &&& p.contains(PipelineStage::StackFrames) <==> (!c.run_hdr && i.frame_count >= 2)
            &&& p.contains(PipelineStage::Denoise) <==> (c.run_denoiser && i.noisy)
            &&& p.contains(PipelineStage::Enhance) <==> (c.run_enhancer && i.dim)
            &&& p.contains(PipelineStage::SuperResolution) <==> (c.run_super_res && i.width * i.height < 8_000_000)
            &&& p.contains(PipelineStage::FaceEnhance) <==> scene == Scene::Portrait
            &&& p.contains(PipelineStage::Bokeh) <==> c.run_depth
            &&& !i.dim ==> !p.contains(PipelineStage::Enhance)
            &&& !i.noisy ==> !p.contains(PipelineStage::Denoise)
            &&& i.frame_count <= 1 ==> !p.contains(PipelineStage::HdrMerge) && !p.contains(PipelineStage::StackFrames)
        }),
{
    lemma_plan_upto_has(c, scene, i, stage_count(), PipelineStage::Decode);
    lemma_plan_upto_has(c, scene, i, stage_count(), PipelineStage::WhiteBalance);
    lemma_plan_upto_has(c, scene, i, stage_count(), PipelineStage::ColorGrade);
    lemma_plan_upto_has(c, scene, i, stage_count(), PipelineStage::HdrMerge);
    lemma_plan_upto_has(c, scene, i, stage_count(), PipelineStage::StackFrames);
    lemma_plan_upto_has(c, scene, i, stage_count(), PipelineStage::Denoise);
    lemma_plan_upto_has(c, scene, i, stage_count(), PipelineStage::Enhance);
    lemma_plan_upto_has(c, scene, i, stage_count(), PipelineStage::ExposureLift);
    lemma_plan_upto_has(c, scene, i, stage_count(), PipelineStage::ToneMap);
    lemma_plan_upto_has(c, scene, i, stage_count(), PipelineStage::Sharpen);
    lemma_plan_upto_has(c, scene, i, stage_count(), PipelineStage::SuperResolution);
    lemma_plan_upto_has(c, scene, i, stage_count(), PipelineStage::FaceEnhance);
    lemma_plan_upto_has(c, scene, i, stage_count(), PipelineStage::Bokeh);
    lemma_plan_upto_has(c, scene, i, stage_count(), PipelineStage::Save);
    lemma_plan_upto_has(c, scene, i, stage_count(), PipelineStage::Done);
}

/// The first report of a run is "Decoding..." at 40 thousandths and the last is
/// "Done" at the whole; the stages report in between at these thousandths:
/// white balance 80, colour grading 130, merging or stacking 220, denoising 320,
/// enhancing 400, tone mapping 500, sharpening 580, super-resolution 680, face
/// enhancement 760, bokeh 840, saving 950; the exposure lift reports nothing.
pub proof fn lemma_stage_reports()
    ensures
        spec_stage_progress(PipelineStage::Decode) == Some(40u16) && spec_stage_label(PipelineStage::Decode) == Some("Decoding..."@),
        spec_stage_progress(PipelineStage::Done) == Some(1000u16) && spec_stage_label(PipelineStage::Done) == Some("Done"@),
        spec_stage_progress(PipelineStage::WhiteBalance) == Some(80u16),
        spec_stage_progress(PipelineStage::ColorGrade) == Some(130u16),
        spec_stage_progress(PipelineStage::HdrMerge) == Some(220u16),
        spec_stage_progress(PipelineStage::StackFrames) == Some(220u16),
        spec_stage_progress(PipelineStage::Denoise) == Some(320u16),
        spec_stage_progress(PipelineStage::Enhance) == Some(400u16),
        spec_stage_progress(PipelineStage::ExposureLift) is None && spec_stage_label(PipelineStage::ExposureLift) is None,
        spec_stage_progress(PipelineStage::ToneMap) == Some(500u16),
        spec_stage_progress(PipelineStage::Sharpen) == Some(580u16),
        spec_stage_progress(PipelineStage::SuperResolution) == Some(680u16),
        spec_stage_progress(PipelineStage::FaceEnhance) == Some(760u16),
        spec_stage_progress(PipelineStage::Bokeh) == Some(840u16),
        spec_stage_progress(PipelineStage::Save) == Some(950u16),
{
}

/// A plan that starts with decoding and ends with `Done`, whose reported
/// progress rises strictly from stage to stage.
pub open spec fn plan_is_ordered(p: Seq<PipelineStage>) -> bool {
    &&& p.len() >= 2
    &&& p[0] == PipelineStage::Decode
    &&& p[p.len() - 1] == PipelineStage::Done
    &&& spec_stage_progress(p[p.len() - 1]) == Some(1000u16)
    &&& forall|a: int, b: int|
        0 <= a < b < p.len() && (#[trigger] spec_stage_progress(p[a])) is Some
            && (#[trigger] spec_stage_progress(p[b])) is Some ==> spec_stage_progress(p[a])->0
            < spec_stage_progress(p[b])->0
}

/// The state of a run of the full pipeline: the stages planned so far (only
/// decoding until the first frame is known), how many of them have been
/// started, whether the full plan is known, and whether a stage failed.
pub struct DriverView {
    pub plan: Seq<PipelineStage>,
    pub started: nat,
    pub planned: bool,
    pub failed: bool,
}

/// The stage started last, if any.
pub open spec fn last_started(v: DriverView) -> Option<PipelineStage> {
    if v.started > 0 {
        Some(v.plan[v.started - 1])
    } else {
        None
    }
}

/// A run succeeds when its full plan is known, every stage was started and none failed.
pub open spec fn run_succeeded(v: DriverView) -> bool {
    v.planned && !v.failed && v.started == v.plan.len()
}

/// Drives a run of the full pipeline: hands out the stages in plan order, one
/// at a time, and stops handing them out after a stage fails. The caller
/// reports each stage's progress as it receives it and performs its work.
pub struct PipelineDriver {
    plan: Vec<PipelineStage>,
    started: usize,
    planned: bool,
    failed: bool,
}

impl PipelineDriver {
    pub closed spec fn view(&self) -> DriverView {
        DriverView { plan: self.plan@, started: self.started as nat, planned: self.planned, failed: self.failed }
    }

    /// The driver's invariant: before planning only decoding is known; once
    /// planned the plan is ordered; no more stages are started than planned.
    pub open spec fn wf(&self) -> bool {
        let v = self.view();
        &&& v.started <= v.plan.len()
        &&& v.planned ==> plan_is_ordered(v.plan)
        &&& !v.planned ==> v.plan == seq![PipelineStage::Decode]
    }

    /// A run that has started nothing; its first stage is decoding.
    pub fn new() -> (d: Self)
        ensures
            d.wf(),
            d.view() == (DriverView { plan: seq![PipelineStage::Decode], started: 0, planned: false, failed: false }),
    {
        let mut plan: Vec<PipelineStage> = Vec::new();
        plan.push(PipelineStage::Decode);
        PipelineDriver { plan, started: 0, planned: false, failed: false }
    }

    /// The next stage to run, which counts as started; none once every stage
    /// has started or a stage has failed.
    pub fn next_stage(&mut self) -> (s: Option<PipelineStage>)
        requires
            old(self).wf(),
        ensures
            final(self).wf(),
            final(self).view().plan == old(self).view().plan,
            final(self).view().planned == old(self).view().planned,
            final(self).view().failed == old(self).view().failed,
            !old(self).view().failed && old(self).view().started < old(self).view().plan.len() ==> s == Some(
                old(self).view().plan[old(self).view().started as int],
            ) && final(self).view().started == old(self).view().started + 1,
            old(self).view().failed || old(self).view().started == old(self).view().plan.len() ==> s is None
                && final(self).view().started == old(self).view().started,
    {
        if self.failed || self.started >= self.plan.len() {
            return None;
        }
        let s = self.plan[self.started];
        self.started = self.started + 1;
        Some(s)
    }

    /// Sets the full plan once decoding has started (and not failed), from what
    /// the first frame showed; at any other point, or without frames, nothing changes.
    pub fn set_plan(&mut self, config: &PipelineConfig, scene: Scene, inputs: &PlanInputs)
        requires
            old(self).wf(),
        ensures
            final(self).wf(),
            old(self).view() == (DriverView { plan: seq![PipelineStage::Decode], started: 1, planned: false, failed: false })
                && inputs.frame_count >= 1 ==> final(self).view() == (DriverView {
                plan: spec_plan(*config, scene, *inputs),
                started: 1,
                planned: true,
                failed: false,
            }),
            !(old(self).view() == (DriverView { plan: seq![PipelineStage::Decode], started: 1, planned: false, failed: false })
                && inputs.frame_count >= 1) ==> final(self).view() == old(self).view(),
    {
        if self.planned || self.failed || self.started != 1 || inputs.frame_count < 1 {
            return;
        }
        let plan = plan_pipeline(config, scene, inputs);
        proof {
            lemma_plan_progress_moves_forward(*config, scene, *inputs);
        }
        self.plan = plan;
        self.planned = true;
    }

    /// Records that the stage started last failed: the run ends there.
    pub fn fail(&mut self)
        requires
            old(self).wf(),
        ensures
            final(self).wf(),
            final(self).view() == (DriverView { failed: true, ..old(self).view() }),
    {
        self.failed = true;
    }

    /// Whether the run succeeded.
    pub fn succeeded(&self) -> (ok: bool)
        ensures
            ok == run_succeeded(self.view()),
    {
        self.planned && !self.failed && self.started == self.plan.len()
    }
}

/// A run succeeds exactly when no stage failed and the stage started last is
/// `Done` (reported at full progress); the progress of the stages started so
/// far rises strictly from the first, decoding, on.
pub proof fn lemma_run_ends_with_done(d: PipelineDriver)
    requires
        d.wf(),
    ensures
        run_succeeded(d.view()) <==> !d.view().failed && last_started(d.view()) == Some(PipelineStage::Done),
        last_started(d.view()) == Some(PipelineStage::Done) ==> spec_stage_progress(PipelineStage::Done) == Some(1000u16)
            && spec_stage_label(PipelineStage::Done) == Some("Done"@),
        d.view().started > 0 ==> d.view().plan[0] == PipelineStage::Decode,
        forall|a: int, b: int|
            0 <= a < b < d.view().started && (#[trigger] spec_stage_progress(d.view().plan[a])) is Some
                && (#[trigger] spec_stage_progress(d.view().plan[b])) is Some ==> spec_stage_progress(
                d.view().plan[a],
            )->0 < spec_stage_progress(d.view().plan[b])->0,
{
    let v = d.view();
    let p = v.plan;
    if last_started(v) == Some(PipelineStage::Done) && v.planned {
        let k = v.started - 1;
        if k < p.len() - 1 {
            assert(spec_stage_progress(p[k]) is Some);
            assert(spec_stage_progress(p[p.len() - 1]) is Some);
        }
    }
}

} // verus!

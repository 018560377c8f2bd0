use photonix_core::pipeline::bokeh::bokeh_blur_radii;
use photonix_core::pipeline::orchestrator::{
    depth_pass, plan_pipeline, DepthPass, PipelineDriver, PipelineStage, PlanInputs,
};
use photonix_core::pipeline::scene::Scene;

fn inputs(frames: usize, noisy: bool, dim: bool, w: u32, h: u32) -> PlanInputs {
    PlanInputs { frame_count: frames, noisy, dim, width: w, height: h }
}

fn progress_of(plan: &[PipelineStage]) -> Vec<u16> {
    plan.iter().filter_map(|s| s.progress_permille()).collect()
}

#[test]
fn standard_single_frame_plan() {
    let cfg = Scene::Standard.pipeline_config();
    let plan = plan_pipeline(&cfg, Scene::Standard, &inputs(1, false, false, 256, 256));
    assert_eq!(
        plan,
        vec![
            PipelineStage::Decode,
            PipelineStage::WhiteBalance,
            PipelineStage::ColorGrade,
            PipelineStage::ExposureLift,
            PipelineStage::ToneMap,
            PipelineStage::Sharpen,
            PipelineStage::Save,
            PipelineStage::Done,
        ]
    );
    assert_eq!(progress_of(&plan), vec![40, 80, 130, 500, 580, 950, 1000]);
}

#[test]
fn noisy_burst_is_stacked_and_denoised() {
    let cfg = Scene::Standard.pipeline_config();
    let plan = plan_pipeline(&cfg, Scene::Standard, &inputs(3, true, true, 256, 256));
    assert!(plan.contains(&PipelineStage::StackFrames));
    assert!(!plan.contains(&PipelineStage::HdrMerge));
    assert!(plan.contains(&PipelineStage::Denoise));
    assert!(!plan.contains(&PipelineStage::Enhance));
}

#[test]
fn landscape_burst_is_merged_and_upscaled_below_eight_megapixels() {
    let cfg = Scene::Landscape.pipeline_config();
    let small = plan_pipeline(&cfg, Scene::Landscape, &inputs(3, true, false, 1920, 1080));
    assert!(small.contains(&PipelineStage::HdrMerge));
    assert!(!small.contains(&PipelineStage::StackFrames));
    assert!(!small.contains(&PipelineStage::Denoise));
    assert!(small.contains(&PipelineStage::SuperResolution));
    let large = plan_pipeline(&cfg, Scene::Landscape, &inputs(3, false, false, 4000, 2000));
    assert!(!large.contains(&PipelineStage::SuperResolution));
    let edge = plan_pipeline(&cfg, Scene::Landscape, &inputs(1, false, false, 4000, 1999));
    assert!(edge.contains(&PipelineStage::SuperResolution));
    assert!(!edge.contains(&PipelineStage::HdrMerge));
}

#[test]
fn portrait_plan_has_face_and_bokeh_and_progress_rises() {
    let cfg = Scene::Portrait.pipeline_config();
    let plan = plan_pipeline(&cfg, Scene::Portrait, &inputs(3, true, true, 640, 480));
    assert!(plan.contains(&PipelineStage::FaceEnhance));
    assert!(plan.contains(&PipelineStage::Bokeh));
    let p = progress_of(&plan);
    assert!(p.windows(2).all(|w| w[0] < w[1]));
    assert_eq!(*p.last().unwrap(), 1000);
    assert_eq!(plan[0], PipelineStage::Decode);
}

#[test]
fn night_plan_enhances_dim_frames() {
    let cfg = Scene::Night.pipeline_config();
    let plan = plan_pipeline(&cfg, Scene::Night, &inputs(7, true, true, 100, 100));
    assert!(plan.contains(&PipelineStage::Enhance));
    assert!(plan.contains(&PipelineStage::Denoise));
    assert!(!plan.contains(&PipelineStage::FaceEnhance));
}

#[test]
fn stage_labels() {
    assert_eq!(PipelineStage::Decode.progress_label(), Some("Decoding..."));
    assert_eq!(PipelineStage::Bokeh.progress_label(), Some("Applying bokeh..."));
    assert_eq!(PipelineStage::Done.progress_label(), Some("Done"));
    assert_eq!(PipelineStage::ExposureLift.progress_label(), None);
    assert_eq!(PipelineStage::ExposureLift.progress_permille(), None);
    assert_eq!(PipelineStage::HdrMerge.progress_permille(), Some(220));
}

#[test]
fn depth_pass_size() {
    let with_sr = Scene::Portrait.pipeline_config();
    assert_eq!(
        depth_pass(&with_sr, 640, 480, 1280, 960),
        DepthPass { width: 640, height: 480, resize_input: true }
    );
    let without = Scene::Standard.pipeline_config();
    assert_eq!(
        depth_pass(&without, 640, 480, 640, 480),
        DepthPass { width: 640, height: 480, resize_input: false }
    );
}

#[test]
fn bokeh_radii() {
    assert_eq!(bokeh_blur_radii(0), None);
    assert_eq!(bokeh_blur_radii(8), Some((2, 5, 8)));
    assert_eq!(bokeh_blur_radii(1), Some((1, 2, 3)));
    assert_eq!(bokeh_blur_radii(3), Some((1, 2, 3)));
}

#[test]
fn driver_hands_out_the_plan_and_succeeds_after_done() {
    let config = Scene::Standard.pipeline_config();
    let inp = inputs(1, false, false, 640, 480);
    let mut d = PipelineDriver::new();
    assert!(!d.succeeded());
    assert_eq!(d.next_stage(), Some(PipelineStage::Decode));
    d.set_plan(&config, Scene::Standard, &inp);
    let mut stages = vec![PipelineStage::Decode];
    let mut reports = vec![PipelineStage::Decode.progress_permille().unwrap()];
    while let Some(s) = d.next_stage() {
        stages.push(s);
        if let Some(p) = s.progress_permille() {
            reports.push(p);
        }
    }
    assert_eq!(stages, plan_pipeline(&config, Scene::Standard, &inp));
    assert_eq!(*stages.last().unwrap(), PipelineStage::Done);
    assert_eq!(reports[0], 40);
    assert_eq!(*reports.last().unwrap(), 1000);
    assert!(reports.windows(2).all(|p| p[0] < p[1]));
    assert!(d.succeeded());
}

#[test]
fn driver_stops_after_a_failed_stage() {
    let config = Scene::Night.pipeline_config();
    let inp = inputs(3, true, true, 640, 480);
    let mut d = PipelineDriver::new();
    assert_eq!(d.next_stage(), Some(PipelineStage::Decode));
    d.set_plan(&config, Scene::Night, &inp);
    assert_eq!(d.next_stage(), Some(PipelineStage::WhiteBalance));
    assert_eq!(d.next_stage(), Some(PipelineStage::ColorGrade));
    assert_eq!(d.next_stage(), Some(PipelineStage::StackFrames));
    d.fail();
    assert_eq!(d.next_stage(), None);
    assert!(!d.succeeded());

    // A failed decode: no plan, nothing further, no success.
    let mut d = PipelineDriver::new();
    assert_eq!(d.next_stage(), Some(PipelineStage::Decode));
    d.fail();
    d.set_plan(&config, Scene::Night, &inp);
    assert_eq!(d.next_stage(), None);
    assert!(!d.succeeded());

    // Planning before decoding has started, or without frames, changes nothing.
    let mut d = PipelineDriver::new();
    d.set_plan(&config, Scene::Night, &inp);
    assert_eq!(d.next_stage(), Some(PipelineStage::Decode));
    d.set_plan(&config, Scene::Night, &inputs(0, true, true, 640, 480));
    assert_eq!(d.next_stage(), None);
    assert!(!d.succeeded());
}

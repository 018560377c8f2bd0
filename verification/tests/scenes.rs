use photonix_core::ai::models::scene_cls::{self, label_group, scene_for_top_label, LabelGroup};
use photonix_core::api::image_api::{choose_scene_source, SceneSource};
use photonix_core::compute::color_science::ColorProfile;
use photonix_core::compute::tone_map::{tone_mode_for_name, ToneMappingMode};
use photonix_core::pipeline::scene::{
    classify_by_luma, scene_after_classifier, scene_for_lowercase_name, scene_from_label, scene_from_stats, Scene,
    SceneEvidence,
};

const ALL: [Scene; 7] = [
    Scene::Night,
    Scene::Portrait,
    Scene::Landscape,
    Scene::Macro,
    Scene::Document,
    Scene::Backlit,
    Scene::Standard,
];

fn quiet() -> SceneEvidence {
    SceneEvidence {
        very_dark: false,
        dark: false,
        bright: false,
        bimodal: false,
        mostly_white: false,
        high_contrast: false,
        noisy: false,
        very_noisy: false,
    }
}

#[test]
fn every_scene_name_selects_its_scene_again() {
    for s in ALL {
        assert_eq!(Scene::from_hint(s.as_str()), s);
        assert_eq!(Scene::from_hint(&s.as_str().to_uppercase()), s);
    }
}

#[test]
fn hints_ignore_case_and_unknown_hints_are_standard() {
    assert_eq!(Scene::from_hint("BackLit"), Scene::Backlit);
    assert_eq!(Scene::from_hint("Document"), Scene::Document);
    assert_eq!(Scene::from_hint(""), Scene::Standard);
    assert_eq!(Scene::from_hint("night "), Scene::Standard);
    assert_eq!(scene_for_lowercase_name("Night"), Scene::Standard);
    assert_eq!(scene_for_lowercase_name("macro"), Scene::Macro);
}

#[test]
fn configuration_table_rows() {
    let doc = Scene::Document.pipeline_config();
    assert_eq!(doc.burst_count, 1);
    assert_eq!(doc.tone_mapping, "none");
    assert!(doc.run_super_res && !doc.run_denoiser && !doc.run_hdr);
    let backlit = Scene::Backlit.pipeline_config();
    assert_eq!(backlit.color_profile, ColorProfile::Cinema);
    assert!(backlit.run_enhancer && backlit.run_hdr && !backlit.run_super_res);
    let macro_cfg = Scene::Macro.pipeline_config();
    assert_eq!(macro_cfg.tone_mapping, "aces");
    assert_eq!(Scene::Landscape.pipeline_config().color_profile, ColorProfile::Vivid);
}

#[test]
fn default_profiles_and_names() {
    assert_eq!(Scene::Night.default_profile(), ColorProfile::Cinema);
    assert_eq!(Scene::Backlit.default_profile(), ColorProfile::Cinema);
    assert_eq!(Scene::Landscape.default_profile(), ColorProfile::Vivid);
    assert_eq!(Scene::Portrait.default_profile(), ColorProfile::Natural);
    assert_eq!(ColorProfile::Cinema.as_str(), "cinema");
    assert_eq!(ColorProfile::Vivid.as_str(), "vivid");
    assert_eq!(ColorProfile::Natural.as_str(), "natural");
}

#[test]
fn tone_mapping_names() {
    assert_eq!(tone_mode_for_name("reinhard"), ToneMappingMode::Reinhard);
    assert_eq!(tone_mode_for_name("none"), ToneMappingMode::Passthrough);
    assert_eq!(tone_mode_for_name("aces"), ToneMappingMode::AcesFilmic);
    assert_eq!(tone_mode_for_name("Reinhard"), ToneMappingMode::AcesFilmic);
}

#[test]
fn classifier_labels_group_as_documented() {
    assert_eq!(label_group(0), LabelGroup::Person);
    assert_eq!(label_group(9), LabelGroup::Person);
    assert_eq!(label_group(10), LabelGroup::Other);
    assert_eq!(label_group(878), LabelGroup::Person);
    assert_eq!(label_group(975), LabelGroup::Outdoor);
    assert_eq!(label_group(300), LabelGroup::CloseUp);
    assert_eq!(label_group(400), LabelGroup::CloseUp);
    assert_eq!(label_group(401), LabelGroup::Other);
    assert_eq!(label_group(986), LabelGroup::CloseUp);
    assert_eq!(scene_for_top_label(895), scene_cls::Scene::Portrait);
    assert_eq!(scene_for_top_label(980), scene_cls::Scene::Landscape);
    assert_eq!(scene_for_top_label(350), scene_cls::Scene::Macro);
    assert_eq!(scene_for_top_label(500), scene_cls::Scene::Standard);
    assert_eq!(scene_cls::Scene::Macro.as_str(), "macro");
}

#[test]
fn luma_fast_path() {
    let mut e = quiet();
    assert_eq!(classify_by_luma(&e), None);
    e.mostly_white = true;
    assert_eq!(classify_by_luma(&e), Some(Scene::Document));
    e.bimodal = true;
    assert_eq!(classify_by_luma(&e), Some(Scene::Document));
    e.bright = true;
    assert_eq!(classify_by_luma(&e), Some(Scene::Backlit));
    e.very_dark = true;
    assert_eq!(classify_by_luma(&e), Some(Scene::Night));
}

#[test]
fn statistics_routing_order() {
    let mut e = quiet();
    assert_eq!(scene_from_stats(&e), Scene::Standard);
    e.noisy = true;
    assert_eq!(scene_from_stats(&e), Scene::Night);
    e.high_contrast = true;
    assert_eq!(scene_from_stats(&e), Scene::Landscape);
    e.mostly_white = true;
    assert_eq!(scene_from_stats(&e), Scene::Document);
    e.bimodal = true;
    assert_eq!(scene_from_stats(&e), Scene::Backlit);
    e.dark = true;
    assert_eq!(scene_from_stats(&e), Scene::Night);
}

#[test]
fn classifier_routing() {
    let mut e = quiet();
    assert_eq!(scene_from_label(3, &e), Scene::Portrait);
    e.very_noisy = true;
    assert_eq!(scene_from_label(3, &e), Scene::Night);
    assert_eq!(scene_from_label(972, &e), Scene::Landscape);
    assert_eq!(scene_from_label(985, &e), Scene::Macro);
    let mut f = quiet();
    f.high_contrast = true;
    assert_eq!(scene_from_label(600, &f), Scene::Landscape);
    assert_eq!(scene_after_classifier(3, false, &f), Scene::Landscape);
    assert_eq!(scene_after_classifier(3, true, &f), Scene::Portrait);
}

#[test]
fn scene_source_choice() {
    assert_eq!(choose_scene_source(Some("MACRO"), 0), SceneSource::Hint(Scene::Macro));
    assert_eq!(choose_scene_source(Some("whatever"), 3), SceneSource::Hint(Scene::Standard));
    assert_eq!(choose_scene_source(None, 2), SceneSource::Detect);
    assert_eq!(choose_scene_source(None, 0), SceneSource::Fallback);
}

use photonix_core::pipeline::scene::Scene;

#[test]
fn test_scene_pipeline_configs_are_valid() {
    let scenes = [
        Scene::Night,
        Scene::Portrait,
        Scene::Landscape,
        Scene::Macro,
        Scene::Standard,
    ];
    for scene in scenes {
        let cfg = scene.pipeline_config();
        assert!(
            cfg.burst_count >= 1 && cfg.burst_count <= 7,
            "burst_count out of range for {:?}: {}",
            scene,
            cfg.burst_count
        );
        assert!(
            !cfg.tone_mapping.is_empty(),
            "tone_mapping empty for {:?}",
            scene
        );
        if scene == Scene::Night {
            assert_eq!(cfg.burst_count, 7);
            assert!(cfg.run_denoiser);
            assert!(cfg.run_enhancer);
        }
        if scene == Scene::Portrait {
            assert!(cfg.run_depth);
        }
        if scene == Scene::Landscape {
            assert!(cfg.run_hdr);
        }
    }
}

#[test]
fn pipeline_integration_test_scene_from_hint() {
    assert_eq!(Scene::from_hint("night"), Scene::Night);
    assert_eq!(Scene::from_hint("PORTRAIT"), Scene::Portrait);
    assert_eq!(Scene::from_hint("unknown"), Scene::Standard);
}

#[test]
fn pipeline_integration_test_scene_pipeline_config() {
    let night = Scene::Night.pipeline_config();
    assert!(night.run_denoiser);
    assert!(night.run_enhancer);
    assert!(!night.run_super_res);
    assert_eq!(night.burst_count, 7);

    let portrait = Scene::Portrait.pipeline_config();
    assert!(portrait.run_denoiser);
    assert!(portrait.run_super_res);
    assert!(portrait.run_depth);
    assert_eq!(portrait.burst_count, 3);

    let landscape = Scene::Landscape.pipeline_config();
    assert!(!landscape.run_denoiser);
    assert!(landscape.run_super_res);
    assert!(landscape.run_hdr);

    let standard = Scene::Standard.pipeline_config();
    assert!(standard.run_denoiser);
    assert!(!standard.run_super_res);
    assert!(!standard.run_depth);
}

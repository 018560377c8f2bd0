pub mod scene_cls;

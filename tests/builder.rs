use std::path::PathBuf;
use tracing_samply::layer::{SamplyLayer, SamplyLayerBuilder, DEFAULT_DIR_NAME};

#[test]
fn unconfigured_builder_uses_default_dir() {
    let default = PathBuf::from("/tmp").join(DEFAULT_DIR_NAME);
    assert_eq!(SamplyLayerBuilder::new().base_dir(default.clone()), default);
    assert_eq!(SamplyLayer::builder().base_dir(default.clone()), default);
}

#[test]
fn configured_output_dir_wins() {
    let default = PathBuf::from("/tmp/tracing-samply");
    let b = SamplyLayer::builder().output_dir(PathBuf::from("/first")).output_dir(PathBuf::from("/out"));
    assert_eq!(b.base_dir(default), PathBuf::from("/out"));
}

#[test]
fn layer_keeps_its_dir() {
    let layer = SamplyLayer::with_dir(PathBuf::from("/out/77"));
    assert_eq!(layer.dir(), &PathBuf::from("/out/77"));
}

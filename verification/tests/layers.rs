use rustocker::layers::{
    image_dir_name, is_layer_file_name, layer_file_name, layer_index_of, layer_key_of, order_layers,
};

#[test]
fn layer_file_names_round_trip() {
    for n in [0usize, 1, 9, 10, 123] {
        assert_eq!(layer_index_of(&layer_file_name(n)), Some(n));
    }
    assert_eq!(layer_file_name(7), "layer_7.tar.gz");
}

#[test]
fn layer_index_needs_prefix_digits_and_suffix() {
    assert_eq!(layer_index_of("layer_12.tar.gz"), Some(12));
    assert_eq!(layer_index_of("layer_+3.tar.gz"), Some(3));
    assert_eq!(layer_index_of("layer_.tar.gz"), None);
    assert_eq!(layer_index_of("layer_x.tar.gz"), None);
    assert_eq!(layer_index_of("layer_1.tar"), None);
    assert_eq!(layer_key_of("layer_x.tar.gz"), 0);
    assert!(is_layer_file_name("layer_anything"));
    assert!(!is_layer_file_name("index.json"));
}

#[test]
fn layers_are_ordered_by_number_and_others_dropped() {
    let names: Vec<String> = ["layer_10.tar.gz", "index.json", "layer_2.tar.gz", "layer_0.tar.gz"]
        .iter()
        .map(|s| s.to_string())
        .collect();
    assert_eq!(order_layers(&names), vec!["layer_0.tar.gz", "layer_2.tar.gz", "layer_10.tar.gz"]);
}

#[test]
fn layers_with_equal_keys_keep_their_order() {
    let names: Vec<String> =
        ["layer_b", "layer_1.tar.gz", "layer_a"].iter().map(|s| s.to_string()).collect();
    assert_eq!(order_layers(&names), vec!["layer_b", "layer_a", "layer_1.tar.gz"]);
}

#[test]
fn image_dir_name_replaces_slashes_and_dots() {
    assert_eq!(image_dir_name("docker.io/library/alpine:3.19"), "docker_io_library_alpine:3_19");
}

use ncd_cli::flat_config::make_flat_config;
use ncd_cli::flat_config::FlatConfig;

#[test]
fn test_flat_config_defaults() {
    let config = FlatConfig::new();
    assert_eq!(1, *config.get_index());
    assert_eq!(None, *config.get_separator());
    assert_eq!(true, *config.get_skip_blank());
    assert_eq!(None, *config.get_comment_char());
    assert_eq!(false, *config.get_inline_comments());
    assert_eq!(true, *config.get_trim_tail());
}

#[test]
fn test_make_flat_config_defaults() {
    let config = make_flat_config(1, None, false, None, false, false);
    assert_eq!(1, *config.get_index());
    assert_eq!(None, *config.get_separator());
    assert_eq!(true, *config.get_skip_blank());
    assert_eq!(None, *config.get_comment_char());
    assert_eq!(false, *config.get_inline_comments());
    assert_eq!(true, *config.get_trim_tail());
}

#[test]
fn test_make_flat_config_overrides() {
    let config = make_flat_config(
        2,
        Some("\t".to_string()),
        true,
        Some("#".to_string()),
        true,
        true,
    );
    assert_eq!(2, *config.get_index());
    assert_eq!(Some("\t".to_string()), *config.get_separator());
    assert_eq!(false, *config.get_skip_blank());
    assert_eq!(Some("#".to_string()), *config.get_comment_char());
    assert_eq!(true, *config.get_inline_comments());
    assert_eq!(false, *config.get_trim_tail());
}

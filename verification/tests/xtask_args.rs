use lib::xtask_args::{has_feature, output_variant, parse_uf2_args, ArgError};

fn args(list: &[&str]) -> Vec<String> {
    list.iter().map(|s| s.to_string()).collect()
}

#[test]
fn defaults_build_pico2_without_features() {
    let o = parse_uf2_args(&args(&[])).unwrap();
    assert_eq!(o.bin, "pico2");
    assert!(o.build);
    assert!(o.features.is_none());
}

#[test]
fn options_are_taken_and_later_ones_win() {
    let o = parse_uf2_args(&args(&["--bin", "panel_probe", "-F", "usb", "--no-build", "--features", "a,b"])).unwrap();
    assert_eq!(o.bin, "panel_probe");
    assert!(!o.build);
    assert_eq!(o.features.as_deref(), Some("a,b"));
}

#[test]
fn missing_values_are_refused() {
    assert_eq!(parse_uf2_args(&args(&["--features"])).err(), Some(ArgError::MissingFeaturesValue));
    assert_eq!(parse_uf2_args(&args(&["-F"])).err(), Some(ArgError::MissingFeaturesValue));
    assert_eq!(parse_uf2_args(&args(&["--no-build", "--bin"])).err(), Some(ArgError::MissingBinValue));
}

#[test]
fn unknown_argument_is_named_by_index() {
    assert_eq!(parse_uf2_args(&args(&["--no-build", "--release"])).err(), Some(ArgError::UnknownArgument(1)));
    assert_eq!(parse_uf2_args(&args(&["uf2"])).err(), Some(ArgError::UnknownArgument(0)));
}

#[test]
fn feature_list_is_split_on_commas_and_trimmed() {
    assert!(has_feature("usb", "usb"));
    assert!(has_feature("defmt, usb ", "usb"));
    assert!(has_feature(" usb\t,x", "usb"));
    assert!(!has_feature("usbx", "usb"));
    assert!(!has_feature("", "usb"));
    assert!(!has_feature("us,b", "usb"));
    assert!(has_feature("a,,", ""));
}

#[test]
fn variant_suffix_marks_usb_builds() {
    assert_eq!(output_variant(&Some("usb".to_string())), "-usb");
    assert_eq!(output_variant(&Some("defmt,usb".to_string())), "-usb");
    assert_eq!(output_variant(&Some("defmt".to_string())), "");
    assert_eq!(output_variant(&None), "");
}

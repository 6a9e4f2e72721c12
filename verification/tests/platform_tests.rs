use mac_led_tray::platform::{
    alert_continues, elevation_script, is_setuid_root, is_supported_mac, unsupported_model_message,
};

#[test]
fn macmini_models_are_supported() {
    assert!(is_supported_mac("Macmini9,1"));
    assert!(is_supported_mac("Macmini8,1"));
    assert!(is_supported_mac("Macmini"));
}

#[test]
fn newer_mac_minis_are_supported() {
    for m in ["Mac14,3", "Mac14,12", "Mac16,10", "Mac16,11"] {
        assert!(is_supported_mac(m), "{}", m);
    }
}

#[test]
fn other_models_are_not_supported() {
    for m in ["", "MacBookPro18,1", "Mac14,2", "Mac14,31", "Mac16,1", "macmini9,1", "Macmin", " Macmini9,1"] {
        assert!(!is_supported_mac(m), "{:?}", m);
    }
}

#[test]
fn alert_text_names_the_model() {
    assert_eq!(
        unsupported_model_message("MacBookPro18,1"),
        "This model (MacBookPro18,1) is not in the list of supported Macs."
    );
    assert_eq!(unsupported_model_message(""), "This model (unknown) is not in the list of supported Macs.");
}

#[test]
fn second_button_continues() {
    assert!(alert_continues(1001));
    assert!(!alert_continues(1000));
}

#[test]
fn setuid_root_needs_root_and_bit() {
    assert!(is_setuid_root(0, 0o104755));
    assert!(!is_setuid_root(501, 0o104755));
    assert!(!is_setuid_root(0, 0o100755));
}

#[test]
fn elevation_script_quotes_path() {
    assert_eq!(
        elevation_script("/Applications/LED.app/Contents/MacOS/led-helper").unwrap(),
        "do shell script \"chown root '/Applications/LED.app/Contents/MacOS/led-helper' && chmod u+s '/Applications/LED.app/Contents/MacOS/led-helper'\" with administrator privileges with prompt \"LED needs admin access to talk to the SMC.\""
    );
}

#[test]
fn elevation_refuses_quotes() {
    assert_eq!(elevation_script("/tmp/it's/led-helper"), None);
    assert_eq!(elevation_script("/tmp/\"x\"/led-helper"), None);
    assert!(elevation_script("/tmp/a b/led-helper").is_some());
}

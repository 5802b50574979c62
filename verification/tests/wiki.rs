use psitool::wiki::{make_user_agent, valid_license};

#[test]
fn user_agent_assembled() {
    let ua = make_user_agent("psitool", "0.1.0", "someone@example.org");
    assert_eq!(ua, "psitool/psi-wm-downloader/0.1.0 (someone@example.org)");
}

#[test]
fn licenses_accepted() {
    assert!(valid_license("CC0"));
    assert!(valid_license("cc0"));
    assert!(valid_license("Public domain"));
    assert!(valid_license("public-domain"));
    assert!(valid_license("CC BY"));
    assert!(valid_license("CC-BY"));
    assert!(valid_license("CC BY 4.0"));
    assert!(valid_license("cc-by-4.0"));
    assert!(valid_license("CC BY 3"));
    assert!(valid_license("CC BY  2.5"));
}

#[test]
fn licenses_rejected() {
    assert!(!valid_license(""));
    assert!(!valid_license("CC BY-SA 4.0"));
    assert!(!valid_license("CC BY-NC"));
    assert!(!valid_license("CC BY4.0"));
    assert!(!valid_license("CC BY 4."));
    assert!(!valid_license("CC BY 4.0.1"));
    assert!(!valid_license("GPL-3.0"));
    assert!(!valid_license("All rights reserved"));
    assert!(!valid_license("CC"));
}

use desqta::deeplink::{parse_apply_flag, parse_theme_install_deeplink, PendingThemeInstall, ThemeInstallPayload};

const ID: &str = "550e8400-e29b-41d4-a716-446655440000";

#[test]
fn parses_desqta_query_link() {
    let payload = parse_theme_install_deeplink(
        "desqta://theme/install?id=550e8400-e29b-41d4-a716-446655440000",
    )
    .unwrap();
    assert_eq!(payload.theme_id, "550e8400-e29b-41d4-a716-446655440000");
    assert!(payload.apply);
}

#[test]
fn parses_desqta_path_link() {
    let payload = parse_theme_install_deeplink(
        "desqta://theme/install/550e8400-e29b-41d4-a716-446655440000",
    )
    .unwrap();
    assert_eq!(payload.theme_id, "550e8400-e29b-41d4-a716-446655440000");
}

#[test]
fn parses_https_web_link() {
    let payload = parse_theme_install_deeplink(
        "https://betterseqta.org/desqta/theme/install?id=550e8400-e29b-41d4-a716-446655440000&apply=1",
    )
    .unwrap();
    assert_eq!(payload.theme_id, "550e8400-e29b-41d4-a716-446655440000");
    assert!(payload.apply);
}

#[test]
fn ignores_invalid_urls() {
    assert!(parse_theme_install_deeplink("desqta://connect/foo").is_none());
    assert!(parse_theme_install_deeplink("desqta://theme/install?id=not-a-uuid").is_none());
}

#[test]
fn parses_bare_theme_path() {
    let p = parse_theme_install_deeplink(&format!("desqta://theme/{}", ID)).unwrap();
    assert_eq!(p.theme_id, ID);
    assert!(p.apply);
}

#[test]
fn trims_link_and_segment() {
    let p = parse_theme_install_deeplink(&format!("  desqta://theme/install/ {} ?x=1 \n", ID)).unwrap();
    assert_eq!(p.theme_id, ID);
}

#[test]
fn path_stops_at_fragment() {
    let p = parse_theme_install_deeplink(&format!("desqta://theme/install/{}#top", ID)).unwrap();
    assert_eq!(p.theme_id, ID);
}

#[test]
fn query_apply_false_values() {
    for v in ["0", "false", "no", " FALSE ", "No"] {
        let p = parse_theme_install_deeplink(&format!("desqta://theme/install?id={}&apply={}", ID, v)).unwrap();
        assert!(!p.apply, "apply={:?}", v);
    }
    let p = parse_theme_install_deeplink(&format!("desqta://theme/install?apply=yes&id={}", ID)).unwrap();
    assert!(p.apply);
}

#[test]
fn query_key_variants_and_last_wins() {
    let p = parse_theme_install_deeplink(&format!("desqta://theme/install/?theme_id={}", ID)).unwrap();
    assert_eq!(p.theme_id, ID);
    let p = parse_theme_install_deeplink(&format!("http://www.betterseqta.org/desqta/theme/install?themeId={}", ID)).unwrap();
    assert_eq!(p.theme_id, ID);
    let other = "6ba7b810-9dad-11d1-80b4-00c04fd430c8";
    let p = parse_theme_install_deeplink(&format!("desqta://theme/install?id={}&id={}", ID, other)).unwrap();
    assert_eq!(p.theme_id, other);
    // an invalid later id hides a valid earlier one
    assert!(parse_theme_install_deeplink(&format!("desqta://theme/install?id={}&id=bad", ID)).is_none());
}

#[test]
fn web_path_links() {
    for prefix in [
        "https://betterseqta.org/desqta/theme/",
        "https://www.betterseqta.org/desqta/theme/",
        "http://betterseqta.org/desqta/theme/",
        "http://www.betterseqta.org/desqta/theme/",
    ] {
        let p = parse_theme_install_deeplink(&format!("{}{}?utm=1", prefix, ID)).unwrap();
        assert_eq!(p.theme_id, ID);
        assert!(p.apply);
    }
    assert!(parse_theme_install_deeplink("https://betterseqta.org/desqta/theme/install").is_none());
}

#[test]
fn uuid_shapes_accepted() {
    let simple = "550e8400e29b41d4a716446655440000";
    assert_eq!(parse_theme_install_deeplink(&format!("desqta://theme/{}", simple)).unwrap().theme_id, simple);
    let braced = format!("{{{}}}", ID);
    assert_eq!(parse_theme_install_deeplink(&format!("desqta://theme/{}", braced)).unwrap().theme_id, braced);
    let urn = format!("URN:uuid:{}", ID.to_uppercase());
    assert_eq!(parse_theme_install_deeplink(&format!("desqta://theme/{}", urn)).unwrap().theme_id, urn);
    assert!(parse_theme_install_deeplink("desqta://theme/550e8400-e29b-41d4-a716-44665544000g").is_none());
}

#[test]
fn apply_flag_reading() {
    assert!(parse_apply_flag(None));
    assert!(parse_apply_flag(Some("1")));
    assert!(parse_apply_flag(Some("")));
    assert!(!parse_apply_flag(Some("0")));
    assert!(!parse_apply_flag(Some("\tFaLsE ")));
    assert!(!parse_apply_flag(Some("NO")));
}

#[test]
fn pending_install_is_taken_once() {
    let mut slot = PendingThemeInstall::new();
    assert!(slot.take_pending_theme_install().is_none());
    slot.store_pending(ThemeInstallPayload { theme_id: ID.to_string(), apply: false });
    slot.store_pending(ThemeInstallPayload { theme_id: "x".to_string(), apply: true });
    let p = slot.take_pending_theme_install().unwrap();
    assert_eq!(p.theme_id, "x");
    assert!(p.apply);
    assert!(slot.take_pending_theme_install().is_none());
}

#[test]
fn surrounding_white_space_changes_nothing() {
    let id = "550e8400-e29b-41d4-a716-446655440000";
    let padded = parse_theme_install_deeplink("  desqta://theme/550e8400-e29b-41d4-a716-446655440000 \n").unwrap();
    let plain = parse_theme_install_deeplink("desqta://theme/550e8400-e29b-41d4-a716-446655440000").unwrap();
    assert_eq!(padded.theme_id, id);
    assert_eq!(plain.theme_id, id);
    assert!(padded.apply && plain.apply);
}

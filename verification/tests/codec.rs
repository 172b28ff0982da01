use ja3::{CipherSuite, ECPointFormat, ExtensionType, Ja3, Ja3S, NamedGroup, ProtocolVersion};

fn client(
    versions: Vec<u16>,
    ciphers: Vec<u16>,
    extensions: Vec<u16>,
    curves: Vec<u16>,
    formats: Vec<u8>,
) -> Ja3 {
    Ja3 {
        ssl_versions: versions.into_iter().map(ProtocolVersion).collect(),
        ciphers: ciphers.into_iter().map(CipherSuite).collect(),
        ssl_extensions: extensions.into_iter().map(ExtensionType).collect(),
        elliptic_curves: curves.into_iter().map(NamedGroup).collect(),
        elliptic_curve_point_formats: formats.into_iter().map(ECPointFormat).collect(),
    }
}

fn server(versions: Vec<u16>, ciphers: Vec<u16>, extensions: Vec<u16>) -> Ja3S {
    Ja3S {
        ssl_versions: versions.into_iter().map(ProtocolVersion).collect(),
        ciphers: ciphers.into_iter().map(CipherSuite).collect(),
        ssl_extensions: extensions.into_iter().map(ExtensionType).collect(),
    }
}

#[test]
fn empty_fields_parse_to_empty_sequences() {
    let j = Ja3::from_str(",,,,").unwrap();
    assert_eq!(j, client(vec![], vec![], vec![], vec![], vec![]));
    assert_eq!(j.render(), ",,,,");
}

#[test]
fn missing_trailing_fields_are_empty() {
    let j = Ja3::from_str("771").unwrap();
    assert_eq!(j.ssl_versions, vec![ProtocolVersion(771)]);
    assert_eq!(j.ciphers, vec![]);
    assert_eq!(j.ssl_extensions, vec![]);
    assert_eq!(j.elliptic_curves, vec![]);
    assert_eq!(j.elliptic_curve_point_formats, vec![]);
    assert_eq!(j, Ja3::from_str("771,,,,").unwrap());
}

#[test]
fn some_missing_trailing_fields() {
    let j = Ja3::from_str("771,4865").unwrap();
    assert_eq!(j, client(vec![771], vec![4865], vec![], vec![], vec![]));
}

#[test]
fn dash_joined_multi_value_field() {
    let j = Ja3::from_str("771-770,4865-4866,0,29,0").unwrap();
    assert_eq!(j.ssl_versions, vec![ProtocolVersion(771), ProtocolVersion(770)]);
    assert_eq!(j, client(vec![771, 770], vec![4865, 4866], vec![0], vec![29], vec![0]));
}

#[test]
fn non_digit_token_is_rejected() {
    assert!(Ja3::from_str("abc,,,,").is_err());
}

#[test]
fn whitespace_in_token_is_rejected() {
    assert!(Ja3::from_str(" 771,,,,").is_err());
    assert!(Ja3::from_str("771 ,,,,").is_err());
    assert!(Ja3::from_str("7 71,,,,").is_err());
}

#[test]
fn sign_in_token_is_rejected() {
    assert!(Ja3::from_str("+771,,,,").is_err());
    assert!(Ja3::from_str("-771,,,,").is_err());
}

#[test]
fn empty_token_between_dashes_is_rejected() {
    assert!(Ja3::from_str("771-,,,,").is_err());
    assert!(Ja3::from_str("771--770,,,,").is_err());
    assert!(Ja3::from_str(",4865-,,,").is_err());
}

#[test]
fn point_format_width_is_eight_bits() {
    assert!(Ja3::from_str(",,,,256").is_err());
    let j = Ja3::from_str(",,,,255").unwrap();
    assert_eq!(j.elliptic_curve_point_formats, vec![ECPointFormat(255)]);
}

#[test]
fn wide_field_width_is_sixteen_bits() {
    let j = Ja3::from_str(",65535,,,").unwrap();
    assert_eq!(j.ciphers, vec![CipherSuite(65535)]);
    assert!(Ja3::from_str(",65536,,,").is_err());
    assert!(Ja3::from_str("65536,,,,").is_err());
}

#[test]
fn leading_zeros_are_accepted() {
    let j = Ja3::from_str("0771,,,,").unwrap();
    assert_eq!(j.ssl_versions, vec![ProtocolVersion(771)]);
    assert_eq!(j.render(), "771,,,,");
}

#[test]
fn empty_text_parses_to_empty_record() {
    let j = Ja3::from_str("").unwrap();
    assert_eq!(j, client(vec![], vec![], vec![], vec![], vec![]));
    let s = Ja3S::from_str("").unwrap();
    assert_eq!(s, server(vec![], vec![], vec![]));
}

#[test]
fn extra_commas_stay_in_the_last_client_field() {
    // The split stops at five pieces, so the fifth raw field is "0,0" and
    // its comma fails the token parse.
    assert!(Ja3::from_str("771,4865,0,29,0,0").is_err());
}

#[test]
fn extra_commas_stay_in_the_last_server_field() {
    // The split stops at three pieces, so the third raw field is "0,1"
    // and its comma fails the token parse.
    assert!(Ja3S::from_str("771,4865,0,1").is_err());
    assert!(Ja3S::from_str("771,4865,0,junk!,more junk").is_err());
}

#[test]
fn client_record_round_trip() {
    let j = client(vec![771, 770], vec![4865, 4866, 4867], vec![0, 23, 65281], vec![29, 23, 24], vec![0]);
    let t = j.render();
    assert_eq!(t, "771-770,4865-4866-4867,0-23-65281,29-23-24,0");
    assert_eq!(Ja3::from_str(&t).unwrap(), j);
}

#[test]
fn client_text_round_trip() {
    let t = "771-770,4865-4866,0,29,0";
    let j = Ja3::from_str(t).unwrap();
    assert_eq!(j.render(), t);
}

#[test]
fn empty_record_renders_as_bare_commas() {
    let j = client(vec![], vec![], vec![], vec![], vec![]);
    assert_eq!(j.render(), ",,,,");
    let s = server(vec![], vec![], vec![]);
    assert_eq!(s.render(), ",,");
}

#[test]
fn single_element_fields_render_without_dashes() {
    let j = client(vec![771], vec![4865], vec![0], vec![29], vec![0]);
    assert_eq!(j.render(), "771,4865,0,29,0");
}

#[test]
fn boundary_values_round_trip() {
    let j = client(vec![0, 65535], vec![65535], vec![0], vec![65535], vec![0, 255]);
    let t = j.render();
    assert_eq!(t, "0-65535,65535,0,65535,0-255");
    assert_eq!(Ja3::from_str(&t).unwrap(), j);
}

#[test]
fn server_form_parses_three_fields() {
    let s = Ja3S::from_str("771,4865-4866,0-23").unwrap();
    assert_eq!(s.ssl_versions, vec![ProtocolVersion(771)]);
    assert_eq!(s.ciphers, vec![CipherSuite(4865), CipherSuite(4866)]);
    assert_eq!(s.ssl_extensions, vec![ExtensionType(0), ExtensionType(23)]);
    assert_eq!(s.render(), "771,4865-4866,0-23");
}

#[test]
fn server_record_round_trip() {
    let s = server(vec![771], vec![4865, 4866], vec![0, 23, 65281]);
    let t = s.render();
    assert_eq!(t, "771,4865-4866,0-23-65281");
    assert_eq!(Ja3S::from_str(&t).unwrap(), s);
}

#[test]
fn server_missing_trailing_fields_are_empty() {
    let s = Ja3S::from_str("771").unwrap();
    assert_eq!(s, server(vec![771], vec![], vec![]));
    assert_eq!(s, Ja3S::from_str("771,,").unwrap());
}

#[test]
fn server_rejects_malformed_fields_it_keeps() {
    assert!(Ja3S::from_str("x,4865,0").is_err());
    assert!(Ja3S::from_str("771,65536,0").is_err());
    assert!(Ja3S::from_str("771,4865,0-").is_err());
}

use frameflow::uri::decode_resource_uri;

#[test]
fn scheme_is_stripped_and_escapes_decoded() {
    assert_eq!(
        decode_resource_uri("frameflow:///home/user/a%20b.mp4"),
        "/home/user/a b.mp4"
    );
}

#[test]
fn plain_path_without_scheme_passes_through() {
    assert_eq!(decode_resource_uri("/plain/path.png"), "/plain/path.png");
}

#[test]
fn percent_escapes_decode_to_bytes() {
    assert_eq!(decode_resource_uri("frameflow://a%2Fb"), "a/b");
}

#[test]
fn malformed_escape_passes_through() {
    assert_eq!(decode_resource_uri("frameflow://a%zzb"), "a%zzb");
}

#[test]
fn multibyte_utf8_escapes_decode() {
    assert_eq!(decode_resource_uri("frameflow://%E4%B8%AD.mp4"), "\u{4e2d}.mp4");
}

#[test]
fn invalid_utf8_is_replaced_not_rejected() {
    assert_eq!(decode_resource_uri("frameflow://a%FFb"), "a\u{fffd}b");
}

#[test]
fn only_the_first_scheme_occurrence_is_removed() {
    assert_eq!(
        decode_resource_uri("frameflow://frameflow://x"),
        "frameflow://x"
    );
}

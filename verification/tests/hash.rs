use fntforge::hash::font_hash;

#[test]
fn fnv1a_of_known_inputs() {
    assert_eq!(font_hash(&[]), "cbf29ce484222325-0");
    assert_eq!(font_hash(b"a"), "af63dc4c8601ec8c-1");
    assert_eq!(font_hash(b"foobar"), "85944171f73967e8-6");
}

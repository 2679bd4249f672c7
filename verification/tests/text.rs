use turso_converge::text::space;

#[test]
fn white_space_is_the_unicode_property() {
    let mut c: u32 = 0;
    while c <= 0x10ffff {
        if let Some(ch) = char::from_u32(c) {
            assert_eq!(space(ch), ch.is_whitespace(), "{c:x}");
        }
        c += 1;
    }
}

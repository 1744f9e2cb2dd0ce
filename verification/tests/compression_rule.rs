use wildbits::paths::should_compress;

#[test]
fn compressed_extensions_start_with_s() {
    assert!(should_compress("Actor/Pack/Link.sbactorpack"));
    assert!(should_compress("Map.smubin"));
    assert!(should_compress("a.s"));
}

#[test]
fn sarc_is_the_exception() {
    assert!(!should_compress("Pack/Bootup.sarc"));
    assert!(should_compress("Pack/Bootup.ssarc"));
}

#[test]
fn other_extensions_are_stored_plain() {
    assert!(!should_compress("Pack/TitleBG.pack"));
    assert!(!should_compress("Actor/Link.bactor"));
    assert!(!should_compress("noextension"));
    assert!(!should_compress("sdir/plain"));
    assert!(!should_compress(".shidden"));
    assert!(!should_compress(""));
}

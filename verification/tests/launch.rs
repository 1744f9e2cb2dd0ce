use wildbits::args::{has_args, kept_args, open_args, route, Route};

fn args(list: &[&str]) -> Vec<String> {
    list.iter().map(|a| a.to_string()).collect()
}

#[test]
fn debug_flag_is_no_file() {
    assert!(!has_args(&args(&[])));
    assert!(!has_args(&args(&["wildbits"])));
    assert!(!has_args(&args(&["wildbits", "--debug"])));
    assert!(!has_args(&args(&["--debug", "wildbits", "--debug"])));
    assert!(has_args(&args(&["wildbits", "Bootup.pack"])));
    assert!(has_args(&args(&["wildbits", "--debug", "Bootup.pack"])));
    assert_eq!(kept_args(&args(&["wildbits", "--debug", "a", "--debug", "b"])), vec!["wildbits", "a", "b"]);
}

#[test]
fn files_are_routed_by_extension() {
    assert_eq!(route("Actor/Link.bxml"), Route::Yaml);
    assert_eq!(route("ActorInfo.product.sbyml"), Route::Yaml);
    assert_eq!(route("Msg.msbt"), Route::Yaml);
    assert_eq!(route("Config.bgyml"), Route::Yaml);
    assert_eq!(route("Map.byml.zs"), Route::Yaml);
    assert_eq!(route("Pack/Bootup.pack"), Route::Sarc);
    assert_eq!(route("Actor/Pack/Link.sbactorpack"), Route::Sarc);
    assert_eq!(route("System/Resource/ResourceSizeTable.product.srsizetable"), Route::Rstb);
    assert_eq!(route("ResourceSizeTable.product.rsizetable"), Route::Rstb);
    assert_eq!(route("picture.png"), Route::Nothing);
    assert_eq!(route("noextension"), Route::Nothing);
    assert_eq!(route(""), Route::Nothing);
}

#[test]
fn first_file_argument_is_opened() {
    assert_eq!(
        open_args(&args(&["wildbits", "--debug", "Pack/Bootup.pack", "Other.byml"])),
        Some((Route::Sarc, "Pack/Bootup.pack".to_string()))
    );
    assert_eq!(
        open_args(&args(&["wildbits", "Actor/Link.bxml"])),
        Some((Route::Yaml, "Actor/Link.bxml".to_string()))
    );
    assert_eq!(open_args(&args(&["wildbits", "picture.png", "Pack/Bootup.pack"])), None);
    assert_eq!(open_args(&args(&["wildbits", "--debug"])), None);
    assert_eq!(open_args(&args(&[])), None);
}

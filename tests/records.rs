use chunkgen::config::Size;
use chunkgen::data::Stats;
use chunkgen::integrity::Integrity;
use chunkgen::ui::UIType;
use chunkgen::vector::Vector4T;

#[test]
fn vector_size_is_corner_difference() {
    let v = Vector4T::new(10u32, 7, 4, 2);
    assert_eq!(v.size(), Size { w: 6, h: 5 });
    let z = Vector4T::new(3u32, 3, 3, 3);
    assert_eq!(z.size(), Size { w: 0, h: 0 });
}

#[test]
fn ui_type_from_name() {
    assert_eq!(UIType::from_str("button"), Some(UIType::Button));
    assert_eq!(UIType::from_str("text"), Some(UIType::Text));
    assert_eq!(UIType::from_str("slider"), Some(UIType::Slider));
    assert_eq!(UIType::from_str("input"), Some(UIType::Input));
    assert_eq!(UIType::from_str("checkbox"), Some(UIType::Checkbox));
    assert_eq!(UIType::from_str("dropdown"), Some(UIType::Dropdown));
    assert_eq!(UIType::from_str("radio"), Some(UIType::Radio));
    assert_eq!(UIType::from_str("list"), Some(UIType::List));
    assert_eq!(UIType::from_str("table"), Some(UIType::Table));
    assert_eq!(UIType::from_str("Button"), None);
    assert_eq!(UIType::from_str(""), None);
}

#[test]
fn stats_default_to_zero() {
    let s = Stats::default();
    assert_eq!((s.stg, s.agi, s.dex, s.int, s.luk, s.vit, s.def, s.rng), (0, 0, 0, 0, 0, 0, 0, 0));
}

#[test]
fn checksum_compares_sha256_hex() {
    let abc = Integrity::new(
        "ba7816bf8f01cfea414140de5dae2223b00361a396177a9cb410ff61f20015ad".to_string(),
        "assets".to_string(),
    );
    assert_eq!(abc.directory(), "assets");
    assert!(abc.check_sum(&b"abc".to_vec()).is_ok());
    assert_eq!(abc.check_sum(&b"abd".to_vec()), Err("Integrity check failed".to_string()));
    let empty = Integrity::new(
        "e3b0c44298fc1c149afbf4c8996fb92427ae41e4649b934ca495991b7852b855".to_string(),
        "assets".to_string(),
    );
    assert!(empty.check_sum(&Vec::new()).is_ok());
    assert!(empty.matches(&"e3b0c44298fc1c149afbf4c8996fb92427ae41e4649b934ca495991b7852b855".to_string()));
    assert!(!empty.matches(&"".to_string()));
}

#[test]
fn ignored_file_names() {
    assert!(Integrity::is_ignored(".DS_Store"));
    assert!(Integrity::is_ignored("checksum"));
    assert!(!Integrity::is_ignored("tiles.png"));
}

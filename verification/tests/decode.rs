use ggsdk::atlas::{cell_of, GAtlas, Pixels};
use ggsdk::decode::{atlas_from, decode_atlas, decode_text};
use ggsdk::persist::storage_file;
use ggsdk::Load;

const PNG_2X1: [u8; 71] = [
    137, 80, 78, 71, 13, 10, 26, 10, 0, 0, 0, 13, 73, 72, 68, 82, 0, 0, 0, 2, 0, 0, 0, 1, 8, 6, 0,
    0, 0, 244, 34, 127, 138, 0, 0, 0, 14, 73, 68, 65, 84, 120, 156, 99, 248, 207, 192, 0, 66, 13,
    0, 15, 122, 3, 126, 119, 233, 127, 151, 0, 0, 0, 0, 73, 69, 78, 68, 174, 66, 96, 130,
];

fn load(name: &str, path: &str, data: &[u8]) -> Load {
    Load { name: name.to_string(), path: path.to_string(), data: data.to_vec() }
}

#[test]
fn text_is_decoded_from_utf8() {
    assert_eq!(decode_text(load("greeting", "a.txt", b"hi")), Ok("hi".to_string()));
    assert_eq!(decode_text(load("empty", "e.txt", b"")), Ok(String::new()));
    assert_eq!(
        decode_text(load("accents", "a.txt", "h\u{e9}llo \u{4e16}\u{754c}".as_bytes())),
        Ok("h\u{e9}llo \u{4e16}\u{754c}".to_string())
    );
}

#[test]
fn text_that_is_not_utf8_is_rejected() {
    assert_eq!(decode_text(load("bad", "a.txt", &[0xff])), Err(()));
    assert_eq!(decode_text(load("cut", "a.txt", &[b'a', 0xe4, 0xb8])), Err(()));
    assert_eq!(decode_text(load("surrogate", "a.txt", &[0xed, 0xa0, 0x80])), Err(()));
}

#[test]
fn atlas_is_decoded_with_the_grid_of_its_path() {
    let atlas = decode_atlas(load("hero", "img/hero_4x2.png", &PNG_2X1)).ok().expect("a picture");
    assert_eq!(atlas.name, "hero");
    assert_eq!(atlas.cols, 4);
    assert_eq!(atlas.rows, 2);
    assert_eq!(atlas.image.width, 2);
    assert_eq!(atlas.image.height, 1);
    assert_eq!(atlas.image.rgba, vec![255, 0, 0, 255, 0, 0, 255, 128]);
}

#[test]
fn atlas_without_a_grid_in_its_name_is_one_cell() {
    let atlas = decode_atlas(load("hero", "hero.png", &PNG_2X1)).ok().expect("a picture");
    assert_eq!((atlas.cols, atlas.rows), (1, 1));
}

#[test]
fn atlas_of_bytes_that_are_no_picture_is_rejected() {
    assert!(decode_atlas(load("hero", "hero_4x2.png", b"not a picture")).is_err());
    assert!(decode_atlas(load("hero", "hero_4x2.png", b"")).is_err());
    assert!(decode_atlas(load("hero", "hero_4x2.png", &PNG_2X1[..40])).is_err());
}

#[test]
fn atlas_needs_a_complete_buffer() {
    let complete = Pixels { width: 2, height: 1, rgba: vec![0; 8] };
    assert!(complete.is_complete());
    let atlas = GAtlas::new("a".to_string(), Some(complete), 2, 1).expect("an atlas");
    assert_eq!((atlas.cols, atlas.rows, atlas.image.width, atlas.image.height), (2, 1, 2, 1));
    let short = Pixels { width: 2, height: 1, rgba: vec![0; 7] };
    assert!(!short.is_complete());
    assert!(GAtlas::new("a".to_string(), Some(short), 2, 1).is_none());
    let long = Pixels { width: 2, height: 1, rgba: vec![0; 9] };
    assert!(GAtlas::new("a".to_string(), Some(long), 2, 1).is_none());
    assert!(GAtlas::new("a".to_string(), None, 2, 1).is_none());
    let empty = Pixels { width: 0, height: 5, rgba: vec![] };
    assert!(GAtlas::new("a".to_string(), Some(empty), 1, 1).is_some());
    let huge = Pixels { width: u32::MAX, height: u32::MAX, rgba: vec![] };
    assert!(!huge.is_complete());
}

#[test]
fn atlas_cells_are_counted_row_by_row() {
    let atlas =
        GAtlas::new("a".to_string(), Some(Pixels { width: 1, height: 1, rgba: vec![0; 4] }), 4, 2)
            .expect("an atlas");
    assert_eq!(atlas.cell(0), (0, 0));
    assert_eq!(atlas.cell(3), (3, 0));
    assert_eq!(atlas.cell(4), (0, 1));
    assert_eq!(atlas.cell(7), (3, 1));
    assert_eq!(atlas.cell(65535), (3, 16383));
    assert_eq!(cell_of(1, 9), (0, 9));
    assert_eq!(cell_of(255, 254), (254, 0));
    assert_eq!(cell_of(255, 256), (1, 1));
}

#[test]
fn atlas_is_made_from_a_decoded_picture() {
    let picture = Pixels { width: 1, height: 2, rgba: vec![1, 2, 3, 4, 5, 6, 7, 8] };
    let atlas = atlas_from(load("hero", "img/hero_3x7.png", b"any"), Some(picture)).ok().expect("an atlas");
    assert_eq!(atlas.name, "hero");
    assert_eq!((atlas.cols, atlas.rows), (3, 7));
    assert_eq!((atlas.image.width, atlas.image.height), (1, 2));
    assert_eq!(atlas.image.rgba, vec![1, 2, 3, 4, 5, 6, 7, 8]);
    assert!(atlas_from(load("hero", "hero_3x7.png", b"any"), None).is_err());
    let short = Pixels { width: 1, height: 2, rgba: vec![1, 2, 3, 4] };
    assert!(atlas_from(load("hero", "hero_3x7.png", b"any"), Some(short)).is_err());
    let plain = Pixels { width: 0, height: 0, rgba: vec![] };
    let atlas = atlas_from(load("hero", "hero.png", b"any"), Some(plain)).ok().expect("an atlas");
    assert_eq!((atlas.cols, atlas.rows), (1, 1));
}

#[test]
fn saved_values_are_kept_in_json_files() {
    assert_eq!(storage_file("k"), "k.json");
    assert_eq!(storage_file("save/slot 1"), "save/slot 1.json");
    assert_eq!(storage_file(""), ".json");
}

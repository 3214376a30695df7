use ggsdk::atlas::GAtlas;
use ggsdk::{GAssets, Load, Loader, LoaderEvent};
use kira::sound::static_sound::StaticSoundData;
use std::collections::VecDeque;

/// A backend with a disk of its own: every request is answered at the next
/// poll but one, in the order of the requests, with the bytes that the disk
/// holds under the path, or with a failure where it holds none.
#[derive(Default)]
struct Disk {
    requests: VecDeque<String>,
    idle: bool,
}

fn file(path: &str) -> Option<Vec<u8>> {
    match path {
        "a.txt" => Some(b"hi".to_vec()),
        "b.txt" => Some(b"bye".to_vec()),
        "c.txt" => Some(b"C".to_vec()),
        "d.txt" => Some(b"D".to_vec()),
        "e.txt" => Some(b"E".to_vec()),
        "hero.txt" => Some(b"a hero".to_vec()),
        "broken.txt" => Some(vec![0xc3]),
        "hero_2x1.png" => Some(PNG_2X1.to_vec()),
        "level.tmx" => Some(TMX_3X2.as_bytes().to_vec()),
        "beep.wav" => Some(WAV_4_FRAMES.to_vec()),
        "noise.wav" => Some(b"no audio at all".to_vec()),
        _ => None,
    }
}

impl Loader for Disk {
    fn request(&mut self, path: String) {
        self.requests.push_back(path);
        self.idle = true;
    }

    fn poll(&mut self) -> Option<LoaderEvent> {
        if self.idle {
            self.idle = false;
            return None;
        }
        let path = self.requests.pop_front()?;
        Some(match file(&path) {
            Some(bytes) => LoaderEvent::Load(path, bytes),
            None => LoaderEvent::LoadFailed(path),
        })
    }
}

const PNG_2X1: [u8; 71] = [
    137, 80, 78, 71, 13, 10, 26, 10, 0, 0, 0, 13, 73, 72, 68, 82, 0, 0, 0, 2, 0, 0, 0, 1, 8, 6, 0,
    0, 0, 244, 34, 127, 138, 0, 0, 0, 14, 73, 68, 65, 84, 120, 156, 99, 248, 207, 192, 0, 66, 13,
    0, 15, 122, 3, 126, 119, 233, 127, 151, 0, 0, 0, 0, 73, 69, 78, 68, 174, 66, 96, 130,
];

const WAV_4_FRAMES: [u8; 52] = [
    82, 73, 70, 70, 44, 0, 0, 0, 87, 65, 86, 69, 102, 109, 116, 32, 16, 0, 0, 0, 1, 0, 1, 0, 64,
    31, 0, 0, 128, 62, 0, 0, 2, 0, 16, 0, 100, 97, 116, 97, 8, 0, 0, 0, 0, 0, 232, 3, 24, 252, 0,
    0,
];

const TMX_3X2: &str = "<?xml version=\"1.0\" encoding=\"UTF-8\"?>\n<map version=\"1.10\" tiledversion=\"1.10.2\" orientation=\"orthogonal\" renderorder=\"right-down\" width=\"3\" height=\"2\" tilewidth=\"16\" tileheight=\"8\" infinite=\"0\" nextlayerid=\"2\" nextobjectid=\"1\">\n <layer id=\"1\" name=\"ground\" width=\"3\" height=\"2\">\n  <data encoding=\"csv\">\n0,0,0,\n0,0,0\n</data>\n </layer>\n</map>\n";

/// Parses a tile map as the host of the library does: from memory, under
/// the path that the load came from.
fn decode_map(load: Load) -> Result<tiled::Map, ()> {
    let data = load.data;
    let reader = move |_: &std::path::Path| -> std::io::Result<std::io::Cursor<Vec<u8>>> {
        Ok(std::io::Cursor::new(data.clone()))
    };
    tiled::Loader::with_reader(reader).load_tmx_map(load.path).map_err(|_| ())
}

/// Decodes a sound as the host of the library does.
fn decode_sound(load: Load) -> Result<StaticSoundData, ()> {
    StaticSoundData::from_cursor(std::io::Cursor::new(load.data)).map_err(|_| ())
}

fn check_counters(assets: &GAssets<Disk>, total: usize, pending: usize) {
    assert_eq!(assets.total(), total);
    assert_eq!(assets.pending(), pending);
    assert_eq!(assets.loaded(), total - pending);
    assert_eq!(assets.loaded() + assets.pending(), assets.total());
}

#[test]
fn text_asset_goes_from_pending_to_loaded() {
    let mut assets: GAssets<Disk> = GAssets::new();
    check_counters(&assets, 0, 0);
    assets.load::<String>("a.txt", "greeting");
    check_counters(&assets, 1, 1);
    assert!(assets.get::<String>("greeting").is_none());
    assets.poll(decode_map, decode_sound);
    check_counters(&assets, 1, 1);
    assert!(assets.get::<String>("greeting").is_none());
    assets.poll(decode_map, decode_sound);
    check_counters(&assets, 1, 0);
    let asset = assets.get::<String>("greeting").expect("the asset is held");
    assert_eq!(asset.name, "greeting");
    assert_eq!(asset.path, "a.txt");
    assert_eq!(asset.data, "hi");
    assets.poll(decode_map, decode_sound);
    check_counters(&assets, 1, 0);
    assert_eq!(assets.get::<String>("greeting").unwrap().data, "hi");
}

#[test]
fn store_without_requests_holds_nothing() {
    let mut assets: GAssets<Disk> = GAssets::default();
    assert!(assets.get::<String>("greeting").is_none());
    assert!(assets.get::<GAtlas>("greeting").is_none());
    assert!(assets.get::<tiled::Map>("greeting").is_none());
    assert!(assets.get::<StaticSoundData>("greeting").is_none());
    for _ in 0..3 {
        assets.poll(decode_map, decode_sound);
        check_counters(&assets, 0, 0);
    }
    assert!(assets.get::<String>("greeting").is_none());
    assert!(assets.get::<String>("a.txt").is_none());
}

#[test]
fn failed_load_stays_pending_and_is_never_held() {
    let mut assets: GAssets<Disk> = GAssets::new();
    assets.load::<String>("missing.bin", "x");
    for _ in 0..8 {
        assets.poll(decode_map, decode_sound);
        check_counters(&assets, 1, 1);
        assert!(assets.get::<String>("x").is_none());
    }
}

#[test]
fn failed_decode_stays_pending() {
    let mut assets: GAssets<Disk> = GAssets::new();
    assets.load::<String>("broken.txt", "greeting");
    for _ in 0..4 {
        assets.poll(decode_map, decode_sound);
        check_counters(&assets, 1, 1);
        assert!(assets.get::<String>("greeting").is_none());
    }
}

#[test]
fn every_request_is_counted_also_for_a_known_name() {
    let mut assets: GAssets<Disk> = GAssets::new();
    assets.load::<String>("a.txt", "greeting");
    assets.load::<String>("a.txt", "greeting");
    check_counters(&assets, 2, 2);
    for _ in 0..4 {
        assets.poll(decode_map, decode_sound);
    }
    // the backend answered twice; the second answer found nothing pending
    check_counters(&assets, 2, 1);
    assets.load::<String>("b.txt", "greeting");
    check_counters(&assets, 3, 2);
    assert_eq!(assets.get::<String>("greeting").unwrap().data, "hi");
    assets.poll(decode_map, decode_sound);
    assets.poll(decode_map, decode_sound);
    check_counters(&assets, 3, 1);
    assert_eq!(assets.get::<String>("greeting").unwrap().data, "bye");
    assert_eq!(assets.get::<String>("greeting").unwrap().path, "b.txt");
}

#[test]
fn later_request_of_a_name_wins_in_the_store() {
    let mut assets: GAssets<Disk> = GAssets::new();
    assets.load::<String>("a.txt", "x");
    assets.load::<String>("b.txt", "x");
    for _ in 0..2 {
        assets.poll(decode_map, decode_sound);
    }
    assert!(assets.get::<String>("x").is_none());
    assets.poll(decode_map, decode_sound);
    check_counters(&assets, 2, 1);
    assert_eq!(assets.get::<String>("x").unwrap().data, "bye");
}

#[test]
fn kinds_are_kept_apart() {
    let mut assets: GAssets<Disk> = GAssets::new();
    assets.load::<String>("hero.txt", "hero");
    assets.poll(decode_map, decode_sound);
    assets.poll(decode_map, decode_sound);
    assert!(assets.get::<GAtlas>("hero").is_none());
    assert_eq!(assets.get::<String>("hero").unwrap().data, "a hero");
    assets.load::<GAtlas>("hero_2x1.png", "hero");
    check_counters(&assets, 2, 1);
    assets.poll(decode_map, decode_sound);
    assets.poll(decode_map, decode_sound);
    check_counters(&assets, 2, 0);
    let atlas = assets.get::<GAtlas>("hero").expect("the atlas is held");
    assert_eq!((atlas.cols, atlas.rows), (2, 1));
    assert_eq!((atlas.image.width, atlas.image.height), (2, 1));
    assert_eq!(atlas.data.name, "hero");
    assert_eq!(atlas.path, "hero_2x1.png");
    assert_eq!(assets.get::<String>("hero").unwrap().data, "a hero");
    assert!(assets.get::<tiled::Map>("hero").is_none());
}

#[test]
fn one_poll_settles_one_outcome_for_each_kind() {
    let mut assets: GAssets<Disk> = GAssets::new();
    assets.load::<String>("a.txt", "a");
    assets.load::<String>("b.txt", "b");
    assets.load::<GAtlas>("hero_2x1.png", "hero");
    check_counters(&assets, 3, 3);
    assets.poll(decode_map, decode_sound);
    check_counters(&assets, 3, 3);
    assets.poll(decode_map, decode_sound);
    check_counters(&assets, 3, 1);
    assert!(assets.get::<String>("a").is_some());
    assert!(assets.get::<String>("b").is_none());
    assert!(assets.get::<GAtlas>("hero").is_some());
    assets.poll(decode_map, decode_sound);
    check_counters(&assets, 3, 0);
    assert!(assets.get::<String>("b").is_some());
}

#[test]
fn counters_add_up_after_every_poll() {
    let mut assets: GAssets<Disk> = GAssets::new();
    let paths = ["a.txt", "missing.txt", "broken.txt", "d.txt", "e.txt"];
    for (i, path) in paths.iter().enumerate() {
        assets.load::<String>(path, path);
        assert_eq!(assets.total(), i + 1);
        assert_eq!(assets.loaded() + assets.pending(), assets.total());
    }
    let mut loaded = 0;
    for _ in 0..10 {
        assets.poll(decode_map, decode_sound);
        assert_eq!(assets.loaded() + assets.pending(), assets.total());
        assert_eq!(assets.total(), 5);
        assert!(assets.loaded() >= loaded);
        assert!(assets.loaded() <= loaded + 1);
        loaded = assets.loaded();
    }
    assert_eq!(assets.loaded(), 3);
    assert_eq!(assets.pending(), 2);
    assert!(assets.get::<String>("a.txt").is_some());
    assert!(assets.get::<String>("missing.txt").is_none());
    assert!(assets.get::<String>("broken.txt").is_none());
    assert!(assets.get::<String>("d.txt").is_some());
    assert!(assets.get::<String>("e.txt").is_some());
}

#[test]
fn maps_and_sounds_are_decoded_in_their_registries() {
    let mut assets: GAssets<Disk> = GAssets::new();
    assets.load::<tiled::Map>("level.tmx", "level");
    assets.load::<StaticSoundData>("beep.wav", "beep");
    assets.load::<StaticSoundData>("noise.wav", "noise");
    check_counters(&assets, 3, 3);
    for _ in 0..4 {
        assets.poll(decode_map, decode_sound);
    }
    check_counters(&assets, 3, 1);
    let level = assets.get::<tiled::Map>("level").expect("the map is held");
    assert_eq!((level.width, level.height), (3, 2));
    assert_eq!(level.path, "level.tmx");
    let beep = assets.get::<StaticSoundData>("beep").expect("the sound is held");
    assert_eq!(beep.num_frames(), 4);
    assert!(assets.get::<StaticSoundData>("noise").is_none());
    assert!(assets.get::<StaticSoundData>("level").is_none());
    assert!(assets.get::<String>("level").is_none());
}

#[test]
fn maps_and_sounds_are_decoded_by_the_functions_handed_in() {
    let mut assets: GAssets<Disk> = GAssets::new();
    assets.load::<tiled::Map>("level.tmx", "level");
    assets.load::<StaticSoundData>("beep.wav", "beep");
    for _ in 0..3 {
        assets.poll(|_load: Load| Err(()), |_load: Load| Err(()));
    }
    check_counters(&assets, 2, 2);
    assert!(assets.get::<tiled::Map>("level").is_none());
    assert!(assets.get::<StaticSoundData>("beep").is_none());
}

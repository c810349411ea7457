use std::io::Cursor;

use image_collisions::{
    apply_ignore, find_collisions, group_images, hash_file, hash_image_bytes, ignore_lines,
    keep_hashed, render_report, CollisionGroup, ConfigError, HashConfig, HashedImage, IgnoreSet, ImageHasher,
    DEFAULT_RESOLUTION, MAX_RESOLUTION,
};

fn png(width: u32, height: u32, f: fn(u32, u32) -> [u8; 4]) -> Vec<u8> {
    let img = image::RgbaImage::from_fn(width, height, |x, y| image::Rgba(f(x, y)));
    let mut buf = Vec::new();
    image::DynamicImage::ImageRgba8(img)
        .write_to(&mut Cursor::new(&mut buf), image::ImageOutputFormat::Png)
        .unwrap();
    buf
}

fn horizontal(x: u32, _y: u32) -> [u8; 4] {
    let v = (x * 255 / 99) as u8;
    [v, v, v, 255]
}

fn checker(x: u32, y: u32) -> [u8; 4] {
    if (x / 10 + y / 10) % 2 == 0 {
        [0, 0, 0, 255]
    } else {
        [255, 255, 255, 255]
    }
}

fn hasher() -> ImageHasher {
    ImageHasher::new(HashConfig::new(None, true).unwrap())
}

fn item(path: &str, w: u32, h: u32, hash: &[u8]) -> HashedImage {
    HashedImage {
        path: path.to_string(),
        width: w,
        height: h,
        config: HashConfig { resolution: 10, use_dct: true },
        hash: hash.to_vec(),
    }
}

fn run(
    hasher: &ImageHasher,
    files: Vec<(&str, Option<Vec<u8>>)>,
    ignored: &IgnoreSet,
) -> Vec<(u32, u32, Vec<String>)> {
    let mut paths: Vec<String> = files.iter().map(|(p, _)| p.to_string()).collect();
    apply_ignore(&mut paths, ignored);
    let results = files
        .into_iter()
        .filter(|(p, _)| paths.iter().any(|q| q == p))
        .map(|(p, b)| hash_file(hasher, p.to_string(), b))
        .collect();
    let items = keep_hashed(results);
    find_collisions(&items)
        .into_iter()
        .map(|g| (g.width, g.height, g.paths))
        .collect()
}

#[test]
fn config_defaults_to_resolution_ten_with_dct() {
    let c = HashConfig::new(None, true).unwrap();
    assert_eq!(c.resolution, DEFAULT_RESOLUTION);
    assert_eq!(c.resolution, 10);
    assert!(c.use_dct);
}

#[test]
fn config_from_flags_turns_dct_off() {
    let c = HashConfig::from_flags(Some(8), true).unwrap();
    assert_eq!(c, HashConfig { resolution: 8, use_dct: false });
    let d = HashConfig::from_flags(None, false).unwrap();
    assert_eq!(d, HashConfig { resolution: 10, use_dct: true });
}

#[test]
fn config_rejects_zero_resolution() {
    assert_eq!(HashConfig::new(Some(0), true), Err(ConfigError::ZeroResolution));
}

#[test]
fn config_rejects_too_large_resolution() {
    assert_eq!(
        HashConfig::new(Some(MAX_RESOLUTION + 1), false),
        Err(ConfigError::ResolutionTooLarge)
    );
    assert!(HashConfig::new(Some(MAX_RESOLUTION), false).is_ok());
}

#[test]
fn ignore_lines_split_like_text_lines() {
    assert_eq!(ignore_lines("a\nb\r\n\nc"), vec!["a", "b", "", "c"]);
    assert_eq!(ignore_lines("a\n"), vec!["a"]);
    assert_eq!(ignore_lines("x\r"), vec!["x\r"]);
    assert_eq!(ignore_lines("\r\n"), vec![""]);
    assert!(ignore_lines("").is_empty());
}

#[test]
fn ignore_removes_exact_paths_only() {
    let set = IgnoreSet::from_text("dir/b.png\nunrelated.png\n");
    let mut paths = vec![
        "dir/a.png".to_string(),
        "dir/b.png".to_string(),
        "./dir/b.png".to_string(),
    ];
    apply_ignore(&mut paths, &set);
    assert_eq!(paths, vec!["dir/a.png", "./dir/b.png"]);
    assert!(set.contains("unrelated.png"));
    assert!(!set.contains("dir/a.png"));
}

#[test]
fn unrelated_ignore_has_no_effect() {
    let mut a = vec!["a.png".to_string(), "b.png".to_string()];
    let mut b = a.clone();
    apply_ignore(&mut a, &IgnoreSet::new());
    apply_ignore(&mut b, &IgnoreSet::from_text("zzz.png"));
    assert_eq!(a, b);
    assert_eq!(a, vec!["a.png", "b.png"]);
}

#[test]
fn grouping_keeps_order_of_first_occurrence() {
    let items = vec![
        item("a", 4, 4, &[1]),
        item("b", 4, 4, &[2]),
        item("c", 4, 4, &[1]),
        item("d", 4, 4, &[2]),
        item("e", 4, 4, &[3]),
    ];
    let groups = group_images(&items);
    let got: Vec<Vec<String>> = groups.into_iter().map(|g| g.paths).collect();
    assert_eq!(got, vec![vec!["a", "c"], vec!["b", "d"], vec!["e"]]);
    let coll = find_collisions(&items);
    assert_eq!(coll.len(), 2);
    assert_eq!(coll[0].hash, vec![1]);
    assert_eq!(coll[1].paths, vec!["b", "d"]);
}

#[test]
fn different_dimensions_never_collide() {
    let items = vec![item("a", 4, 4, &[7, 7]), item("b", 4, 5, &[7, 7])];
    assert!(find_collisions(&items).is_empty());
}

#[test]
fn different_configurations_never_collide() {
    let mut b = item("b", 4, 4, &[9]);
    b.config = HashConfig { resolution: 16, use_dct: true };
    let mut c = item("c", 4, 4, &[9]);
    c.config = HashConfig { resolution: 8, use_dct: true };
    let items = vec![c, b];
    assert!(find_collisions(&items).is_empty());
}

#[test]
fn one_image_gives_no_collision() {
    assert!(find_collisions(&vec![item("a", 1, 1, &[0])]).is_empty());
}

#[test]
fn no_files_give_no_collision() {
    assert!(find_collisions(&Vec::new()).is_empty());
    assert!(run(&hasher(), Vec::new(), &IgnoreSet::new()).is_empty());
}

#[test]
fn keep_hashed_drops_failures_in_order() {
    let r = keep_hashed(vec![None, Some(item("a", 1, 1, &[0])), None, Some(item("b", 1, 1, &[0]))]);
    let paths: Vec<String> = r.into_iter().map(|i| i.path).collect();
    assert_eq!(paths, vec!["a", "b"]);
}

#[test]
fn decoding_gives_dimensions_and_hash() {
    let h = hasher();
    let bytes = png(100, 60, horizontal);
    let img = hash_image_bytes(&h, "a.png".to_string(), &bytes).unwrap();
    assert_eq!((img.width, img.height), (100, 60));
    assert_eq!(img.config, HashConfig { resolution: 10, use_dct: true });
    assert_eq!(img.hash.len(), 13);
    assert_ne!(img.hash, bytes);
}

#[test]
fn identical_bytes_hash_identically() {
    let h = hasher();
    let bytes = png(100, 100, checker);
    let a = hash_image_bytes(&h, "a".to_string(), &bytes).unwrap();
    let b = hash_image_bytes(&h, "b".to_string(), &bytes).unwrap();
    assert_eq!(a.hash, b.hash);
    let c = hash_image_bytes(&h, "c".to_string(), &png(100, 100, horizontal)).unwrap();
    assert_ne!(a.hash, c.hash);
}

#[test]
fn spatial_hash_has_resolution_squared_bits() {
    let h = ImageHasher::new(HashConfig::new(Some(8), false).unwrap());
    let img = hash_image_bytes(&h, "a".to_string(), &png(100, 100, checker)).unwrap();
    assert_eq!(img.hash.len(), 8);
    assert_eq!(h.configuration(), HashConfig { resolution: 8, use_dct: false });
}

#[test]
fn undecodable_or_unreadable_files_are_skipped() {
    let h = hasher();
    assert!(hash_file(&h, "bad.png".to_string(), Some(b"not an image".to_vec())).is_none());
    assert!(hash_file(&h, "gone.png".to_string(), None).is_none());
}

#[test]
fn duplicate_pair_forms_one_group() {
    let a = png(100, 100, checker);
    let files = vec![
        ("a.png", Some(a.clone())),
        ("b.png", Some(a)),
        ("c.png", Some(png(100, 100, horizontal))),
    ];
    let groups = run(&hasher(), files, &IgnoreSet::new());
    assert_eq!(groups, vec![(100, 100, vec!["a.png".to_string(), "b.png".to_string()])]);
}

#[test]
fn ignored_duplicate_leaves_no_group() {
    let a = png(100, 100, checker);
    let files = vec![
        ("a.png", Some(a.clone())),
        ("b.png", Some(a)),
        ("c.png", Some(png(100, 100, horizontal))),
    ];
    let groups = run(&hasher(), files, &IgnoreSet::from_text("b.png\n"));
    assert!(groups.is_empty());
}

#[test]
fn corrupt_file_does_not_stop_duplicates() {
    let a = png(100, 100, checker);
    let files = vec![
        ("a.png", Some(a.clone())),
        ("broken.png", Some(vec![0x89, b'P', b'N', b'G', 0, 1, 2])),
        ("b.png", Some(a)),
    ];
    let groups = run(&hasher(), files, &IgnoreSet::new());
    assert_eq!(groups, vec![(100, 100, vec!["a.png".to_string(), "b.png".to_string()])]);
}

#[test]
fn report_prints_each_group_after_a_blank_line() {
    let groups = vec![
        CollisionGroup {
            config: HashConfig { resolution: 10, use_dct: true },
            hash: vec![1],
            width: 100,
            height: 7,
            paths: vec!["./a.png".to_string(), "./b.png".to_string()],
        },
        CollisionGroup {
            config: HashConfig { resolution: 10, use_dct: true },
            hash: vec![2],
            width: 0,
            height: 4294967295,
            paths: vec!["x".to_string(), "y".to_string()],
        },
    ];
    assert_eq!(
        render_report(&groups),
        "\ncollision:\n  100 x 7\n    ./a.png\n    ./b.png\n\ncollision:\n  0 x 4294967295\n    x\n    y\n"
    );
}

#[test]
fn empty_report_prints_nothing() {
    assert_eq!(render_report(&Vec::new()), "");
}

use iview::navigator::{
    advance, collect_images, entry_le, find_extension, is_supported_name, locate, same_path,
    sort_entries, Collection, DirItem, ImageEntry, SortDir,
};
use iview::order::{bytes_eq, bytes_le};

fn entry(name: &str, modified: Option<i128>, size: Option<u64>) -> ImageEntry {
    let path = format!("/pics/{}", name).into_bytes();
    ImageEntry {
        path: path.clone(),
        name: name.as_bytes().to_vec(),
        modified,
        size,
        canonical: Some(path),
    }
}

fn file(name: &str) -> DirItem {
    DirItem { entry: entry(name, Some(0), Some(0)), is_file: true }
}

fn names(entries: &[ImageEntry]) -> Vec<String> {
    entries.iter().map(|e| String::from_utf8(e.name.clone()).unwrap()).collect()
}

fn folder(name: &str) -> Option<Vec<u8>> {
    Some(name.as_bytes().to_vec())
}

fn collection_of(entries: Vec<ImageEntry>) -> Collection {
    Collection { folder: folder("/pics"), entries, index: 0 }
}

#[test]
fn extensions() {
    assert_eq!(find_extension(b"a.png"), Some(2));
    assert_eq!(find_extension(b"archive.tar.gz"), Some(12));
    assert_eq!(find_extension(b"noext"), None);
    assert_eq!(find_extension(b".hidden"), None);
    assert_eq!(find_extension(b".hidden.png"), Some(8));
    assert_eq!(find_extension(b"x."), Some(2));
    assert_eq!(find_extension(b".."), None);
    assert_eq!(find_extension(b"..."), Some(3));
    assert_eq!(find_extension(b"."), None);
    assert_eq!(find_extension(b""), None);
}

#[test]
fn supported_names() {
    for name in ["a.bmp", "a.jpg", "a.jpeg", "a.png", "a.tif", "a.gif", "a.webp"] {
        assert!(is_supported_name(name.as_bytes()), "{}", name);
        assert!(is_supported_name(name.to_uppercase().as_bytes()), "{}", name);
    }
    assert!(is_supported_name(b"photo.JpEg"));
    assert!(is_supported_name(b"archive.tar.gif"));
    for name in [
        "a.tiff", "a.txt", "a.pn", "a.pngx", "png", ".png", "a.", "a", "", "..", "a.png.bak",
        "a.jp\u{e9}g", "a.p\u{212a}g", "a.[mp", "a.bmp ", "a.jpg\0",
    ] {
        assert!(!is_supported_name(name.as_bytes()), "{}", name);
    }
}

#[test]
fn scan_keeps_the_image_files_in_order() {
    let mut dir = file("dir.png");
    dir.is_file = false;
    let listing = vec![
        file("z.PNG"),
        file("b.txt"),
        file("c.jpeg"),
        dir,
        file(".png"),
        file("noext"),
        file("d.JpG"),
        file("a.webp"),
        file("f.tiff"),
    ];
    let images = collect_images(listing);
    assert_eq!(names(&images), ["z.PNG", "c.jpeg", "d.JpG", "a.webp"]);
    assert_eq!(images[0].path, b"/pics/z.PNG");
    assert!(collect_images(Vec::new()).is_empty());
}

#[test]
fn byte_strings() {
    assert!(bytes_eq(b"abc", b"abc"));
    assert!(!bytes_eq(b"abc", b"abd"));
    assert!(!bytes_eq(b"abc", b"ab"));
    assert!(bytes_eq(b"", b""));
    assert!(bytes_le(b"abc", b"abc"));
    assert!(bytes_le(b"ab", b"abc"));
    assert!(!bytes_le(b"abc", b"ab"));
    assert!(bytes_le(b"abc", b"abd"));
    assert!(!bytes_le(b"abd", b"abc"));
    assert!(bytes_le(b"", b""));
    assert!(bytes_le(b"", b"a"));
    assert!(!bytes_le(b"a", b""));
    assert!(bytes_le(b"B", b"a"));
    assert!(bytes_le(b"a", b"\xff"));
}

#[test]
fn order_of_two_entries() {
    let a = entry("b.JPG", None, None);
    let b = entry("a.jpg", Some(-5), Some(0));
    let c = entry("c", Some(7), Some(9));
    assert!(!entry_le(&a, &b, SortDir::Name));
    assert!(entry_le(&b, &a, SortDir::Name));
    assert!(entry_le(&a, &b, SortDir::Ext));
    assert!(!entry_le(&b, &a, SortDir::Ext));
    assert!(entry_le(&c, &a, SortDir::Ext));
    assert!(!entry_le(&a, &c, SortDir::Ext));
    assert!(entry_le(&a, &b, SortDir::Date));
    assert!(!entry_le(&b, &a, SortDir::Date));
    assert!(entry_le(&b, &c, SortDir::Date));
    assert!(!entry_le(&c, &b, SortDir::Date));
    assert!(entry_le(&a, &a, SortDir::Date));
    assert!(entry_le(&a, &b, SortDir::Size));
    assert!(entry_le(&b, &a, SortDir::Size));
    assert!(!entry_le(&c, &a, SortDir::Size));
}

#[test]
fn sort_by_name() {
    let mut entries = vec![
        entry("b.png", None, None),
        entry("a.png", None, None),
        entry("B.png", None, None),
        entry("a.jpg", None, None),
        entry("a.png2", None, None),
        entry("a", None, None),
    ];
    sort_entries(&mut entries, SortDir::Name);
    assert_eq!(names(&entries), ["B.png", "a", "a.jpg", "a.png", "a.png2", "b.png"]);
}

#[test]
fn sort_by_extension() {
    let mut entries = vec![
        entry("a.png", None, None),
        entry("b.JPG", None, None),
        entry("c.jpg", None, None),
        entry("d.bmp", None, None),
        entry("e.png", None, None),
        entry("f", None, None),
        entry("a.bmp", None, None),
    ];
    sort_entries(&mut entries, SortDir::Ext);
    assert_eq!(names(&entries), ["f", "b.JPG", "d.bmp", "a.bmp", "c.jpg", "a.png", "e.png"]);
}

#[test]
fn sort_by_date_is_stable() {
    let mut entries = vec![
        entry("first.png", Some(100), None),
        entry("second.png", Some(50), None),
        entry("third.png", Some(100), None),
        entry("fourth.png", Some(50), None),
        entry("fifth.png", Some(100), None),
    ];
    sort_entries(&mut entries, SortDir::Date);
    assert_eq!(
        names(&entries),
        ["second.png", "fourth.png", "first.png", "third.png", "fifth.png"]
    );
}

#[test]
fn unknown_date_is_the_oldest() {
    let mut entries = vec![
        entry("new.png", Some(1_700_000_000_000_000_000), None),
        entry("old.png", Some(-1), None),
        entry("unknown.png", None, None),
        entry("oldest.png", Some(i128::MIN), None),
        entry("unknown2.png", None, None),
        entry("epoch.png", Some(0), None),
    ];
    sort_entries(&mut entries, SortDir::Date);
    assert_eq!(
        names(&entries),
        ["unknown.png", "unknown2.png", "oldest.png", "old.png", "epoch.png", "new.png"]
    );
}

#[test]
fn sort_by_size_counts_unknown_as_zero() {
    let mut entries = vec![
        entry("big.png", None, Some(u64::MAX)),
        entry("unknown.png", None, None),
        entry("small.png", None, Some(1)),
        entry("empty.png", None, Some(0)),
        entry("unknown2.png", None, None),
    ];
    sort_entries(&mut entries, SortDir::Size);
    assert_eq!(
        names(&entries),
        ["unknown.png", "empty.png", "unknown2.png", "small.png", "big.png"]
    );
}

#[test]
fn sorting_again_changes_nothing() {
    for key in [SortDir::Name, SortDir::Ext, SortDir::Date, SortDir::Size] {
        let mut entries = Vec::new();
        let mut seed: u64 = 12345;
        for k in 0..60 {
            seed = seed.wrapping_mul(6364136223846793005).wrapping_add(1442695040888963407);
            let letter = (97 + (seed >> 40) as u8 % 4) as char;
            let ext = ["png", "jpg", "PNG", "gif"][(seed >> 50) as usize % 4];
            let name = format!("{}{}.{}", letter, k % 7, ext);
            let modified = if seed % 5 == 0 { None } else { Some((seed >> 20) as i128 % 6) };
            let size = if seed % 7 == 0 { None } else { Some((seed >> 30) % 4) };
            entries.push(entry(&name, modified, size));
        }
        let mut before = names(&entries);
        sort_entries(&mut entries, key);
        let once = names(&entries);
        for pair in entries.windows(2) {
            assert!(entry_le(&pair[0], &pair[1], key));
        }
        let mut after = once.clone();
        before.sort();
        after.sort();
        assert_eq!(before, after);
        sort_entries(&mut entries, key);
        assert_eq!(names(&entries), once);
    }
}

#[test]
fn sort_agrees_with_a_stable_sort() {
    for key in [SortDir::Name, SortDir::Ext, SortDir::Date, SortDir::Size] {
        let mut entries = Vec::new();
        let mut seed: u64 = 99;
        for k in 0..80 {
            seed = seed.wrapping_mul(6364136223846793005).wrapping_add(1442695040888963407);
            let ext = ["png", "jpg", "PNG", "gif"][(seed >> 50) as usize % 4];
            let name = format!("{}-{}.{}", (seed >> 44) % 3, k, ext);
            let modified = if seed % 5 == 0 { None } else { Some((seed >> 20) as i128 % 6 - 3) };
            let size = if seed % 7 == 0 { None } else { Some((seed >> 30) % 4) };
            entries.push(entry(&name, modified, size));
        }
        let mut expected = entries.clone();
        expected.sort_by(|a, b| {
            if entry_le(a, b, key) && entry_le(b, a, key) {
                std::cmp::Ordering::Equal
            } else if entry_le(a, b, key) {
                std::cmp::Ordering::Less
            } else {
                std::cmp::Ordering::Greater
            }
        });
        sort_entries(&mut entries, key);
        assert_eq!(names(&entries), names(&expected));
    }
}

#[test]
fn sort_of_few() {
    let mut none: Vec<ImageEntry> = Vec::new();
    sort_entries(&mut none, SortDir::Name);
    assert!(none.is_empty());
    let mut one = vec![entry("a.png", None, None)];
    sort_entries(&mut one, SortDir::Size);
    assert_eq!(names(&one), ["a.png"]);
}

#[test]
fn steps_wrap_around() {
    assert_eq!(advance(0, 3, 1), 1);
    assert_eq!(advance(2, 3, 1), 0);
    assert_eq!(advance(0, 3, -1), 2);
    assert_eq!(advance(1, 3, -1), 0);
    assert_eq!(advance(1, 3, 0), 0);
    assert_eq!(advance(0, 1, 1), 0);
    assert_eq!(advance(0, 1, -1), 0);
    assert_eq!(advance(1, 3, i32::MAX), 2);
    assert_eq!(advance(1, 3, i32::MIN), 0);
}

#[test]
fn steps_from_outside() {
    assert_eq!(advance(7, 3, 1), 2);
    assert_eq!(advance(7, 3, -1), 0);
    assert_eq!(advance(usize::MAX, 4, 1), (usize::MAX % 4 + 1) % 4);
    assert_eq!(advance(5, 0, 1), 5);
    assert_eq!(advance(5, 0, -1), 5);
}

#[test]
fn full_circle_and_back_and_forth() {
    for len in 1..9usize {
        for start in 0..len {
            let mut at = start;
            for _ in 0..len {
                at = advance(at, len, 1);
            }
            assert_eq!(at, start);
            for _ in 0..len {
                at = advance(at, len, -1);
            }
            assert_eq!(at, start);
            assert_eq!(advance(advance(start, len, -1), len, 1), start);
            assert_eq!(advance(advance(start, len, 1), len, -1), start);
        }
    }
}

#[test]
fn navigation_moves_the_position() {
    let mut c = collection_of(vec![
        entry("a.png", None, None),
        entry("b.png", None, None),
        entry("c.png", None, None),
    ]);
    assert_eq!(c.current().unwrap().name, b"a.png");
    assert!(c.navigation(1));
    assert_eq!(c.index, 1);
    assert!(c.navigation(1));
    assert!(c.navigation(1));
    assert_eq!(c.index, 0);
    assert!(c.navigation(-1));
    assert_eq!(c.index, 2);
    assert_eq!(c.current().unwrap().path, b"/pics/c.png");
}

#[test]
fn navigation_among_no_images() {
    let mut c = Collection::new();
    assert!(c.folder.is_none());
    assert!(c.entries.is_empty());
    assert_eq!(c.index, 0);
    assert!(!c.navigation(1));
    assert_eq!(c.index, 0);
    assert!(!c.navigation(-1));
    assert_eq!(c.index, 0);
    assert!(c.current().is_none());
    c.index = 4;
    assert!(!c.navigation(1));
    assert_eq!(c.index, 4);
}

#[test]
fn locate_finds_every_entry() {
    let listing =
        vec![file("q.png"), file("b.jpg"), file("notes.txt"), file("A.gif"), file("m.webp")];
    let mut c = Collection::scan(folder("/pics"), Some(listing));
    assert_eq!(c.folder, folder("/pics"));
    assert_eq!(names(&c.entries), ["q.png", "b.jpg", "A.gif", "m.webp"]);
    assert_eq!(c.index, 0);
    c.sort(SortDir::Name);
    assert_eq!(names(&c.entries), ["A.gif", "b.jpg", "m.webp", "q.png"]);
    for k in 0..c.entries.len() {
        let target = c.entries[k].canonical.clone();
        assert_eq!(c.locate(&target), Some(k));
        assert_eq!(locate(&c.entries, &target), Some(k));
        assert!(c.select(&target));
        assert_eq!(c.index, k);
    }
}

#[test]
fn scan_of_an_unreadable_directory_is_empty() {
    let c = Collection::scan(folder("/gone"), None);
    assert_eq!(c.folder, folder("/gone"));
    assert!(c.entries.is_empty());
    assert_eq!(c.index, 0);
    assert_eq!(c.locate(&folder("/gone/a.png")), None);
    assert_eq!(c.advance(3, 1), 3);
    let c = Collection::scan(None, Some(vec![file("a.png")]));
    assert!(c.entries.is_empty());
}

#[test]
fn steps_in_a_collection() {
    let c = collection_of(vec![
        entry("a.png", None, None),
        entry("b.png", None, None),
        entry("c.png", None, None),
        entry("d.png", None, None),
    ]);
    let n = c.entries.len();
    for i in 0..n {
        assert_eq!(c.advance(i, 1), (i + 1) % n);
        assert_eq!(c.advance(i, -1), (i + n - 1) % n);
        assert_eq!(c.advance(c.advance(i, -1), 1), i);
        let mut at = i;
        for _ in 0..n {
            at = c.advance(at, 1);
        }
        assert_eq!(at, i);
    }
}

#[test]
fn locate_of_what_is_not_there() {
    let mut unresolved = entry("x.png", None, None);
    unresolved.canonical = None;
    let mut twin = entry("twin.png", None, None);
    twin.canonical = folder("/pics/b.png");
    let entries = vec![unresolved, entry("a.png", None, None), entry("b.png", None, None), twin];
    assert_eq!(locate(&entries, &None), None);
    assert_eq!(locate(&entries, &folder("/pics/x.png")), None);
    assert_eq!(locate(&entries, &folder("/pics/c.png")), None);
    assert_eq!(locate(&entries, &folder("/pics/b.png")), Some(2));
    assert_eq!(locate(&entries, &folder("/pics/twin.png")), None);
    assert_eq!(locate(&Vec::new(), &folder("/pics/a.png")), None);

    let mut c = collection_of(entries);
    c.index = 1;
    assert!(!c.select(&folder("/pics/c.png")));
    assert_eq!(c.index, 1);
    assert!(!c.select(&None));
    assert_eq!(c.index, 1);
}

#[test]
fn paths_compare_by_their_bytes() {
    assert!(same_path(&None, &None));
    assert!(same_path(&folder("/a"), &folder("/a")));
    assert!(!same_path(&folder("/a"), &folder("/b")));
    assert!(!same_path(&folder("/a"), &None));
    assert!(!same_path(&None, &folder("/a")));
}

#[test]
fn rescan_replaces_the_entries() {
    let mut c = collection_of(vec![entry("old.png", None, None), entry("old2.png", None, None)]);
    c.index = 1;
    assert!(!c.needs_rescan(&folder("/pics")));
    assert!(c.needs_rescan(&folder("/other")));
    assert!(c.needs_rescan(&None));
    c.rescan(folder("/other"), Some(vec![file("n.png"), file("n.txt")]));
    assert_eq!(c.folder, folder("/other"));
    assert_eq!(names(&c.entries), ["n.png"]);
    assert_eq!(c.index, 0);

    c.rescan(folder("/gone"), None);
    assert_eq!(c.folder, folder("/gone"));
    assert!(c.entries.is_empty());

    c.rescan(None, Some(vec![file("n.png")]));
    assert_eq!(c.folder, None);
    assert!(c.entries.is_empty());
    assert!(!c.needs_rescan(&None));
}

#[test]
fn list_is_read_again_only_for_another_directory() {
    let mut c = Collection::new();
    c.make_image_list(
        folder("/pics"),
        Some(vec![file("c.png"), file("a.png"), file("b.png")]),
        SortDir::Name,
        &folder("/pics/b.png"),
    );
    assert_eq!(c.folder, folder("/pics"));
    assert_eq!(names(&c.entries), ["a.png", "b.png", "c.png"]);
    assert_eq!(c.index, 1);

    c.make_image_list(
        folder("/pics"),
        Some(vec![file("other.png")]),
        SortDir::Name,
        &folder("/pics/c.png"),
    );
    assert_eq!(names(&c.entries), ["a.png", "b.png", "c.png"]);
    assert_eq!(c.index, 2);

    c.make_image_list(folder("/pics"), None, SortDir::Name, &folder("/pics/elsewhere.png"));
    assert_eq!(names(&c.entries), ["a.png", "b.png", "c.png"]);
    assert_eq!(c.index, 2);

    c.make_image_list(
        folder("/more"),
        Some(vec![file("z.gif"), file("y.gif")]),
        SortDir::Name,
        &folder("/pics/c.png"),
    );
    assert_eq!(c.folder, folder("/more"));
    assert_eq!(names(&c.entries), ["y.gif", "z.gif"]);
    assert_eq!(c.index, 0);

    c.make_image_list(folder("/unreadable"), None, SortDir::Date, &None);
    assert!(c.entries.is_empty());
    assert!(!c.navigation(1));
}

#[test]
fn position_stays_where_the_image_is_not_listed() {
    let mut c = Collection::new();
    c.make_image_list(
        folder("/pics"),
        Some(vec![file("a.png"), file("b.png"), file("c.png"), file("d.png")]),
        SortDir::Name,
        &folder("/pics/c.png"),
    );
    assert_eq!(c.index, 2);

    // another directory, and an image whose extension is not on the list
    c.make_image_list(
        folder("/dir2"),
        Some(vec![file("z.png"), file("a.tiff"), file("y.png"), file("x.png")]),
        SortDir::Name,
        &folder("/dir2/a.tiff"),
    );
    assert_eq!(names(&c.entries), ["x.png", "y.png", "z.png"]);
    assert_eq!(c.index, 2);

    // a path that cannot be resolved
    c.make_image_list(
        folder("/dir3"),
        Some(vec![file("p.png"), file("q.png"), file("r.png")]),
        SortDir::Name,
        &None,
    );
    assert_eq!(names(&c.entries), ["p.png", "q.png", "r.png"]);
    assert_eq!(c.index, 2);

    // the position names none of the new entries
    c.make_image_list(
        folder("/dir4"),
        Some(vec![file("p.png"), file("q.png")]),
        SortDir::Name,
        &folder("/dir4/gone.png"),
    );
    assert_eq!(c.index, 0);

    // among no entries the position stays
    c.index = 1;
    c.make_image_list(folder("/dir5"), None, SortDir::Name, &folder("/dir5/a.png"));
    assert!(c.entries.is_empty());
    assert_eq!(c.index, 1);
}

#[test]
fn rescan_keeps_the_position() {
    let mut c = collection_of(vec![
        entry("a.png", None, None),
        entry("b.png", None, None),
        entry("c.png", None, None),
    ]);
    c.index = 1;
    c.rescan(folder("/other"), Some(vec![file("n.png"), file("m.png"), file("n.txt")]));
    assert_eq!(names(&c.entries), ["n.png", "m.png"]);
    assert_eq!(c.index, 1);
    c.rescan(folder("/third"), Some(vec![file("n.png")]));
    assert_eq!(c.index, 0);
    c.index = 7;
    c.rescan(folder("/gone"), None);
    assert!(c.entries.is_empty());
    assert_eq!(c.index, 7);
    c.rescan(folder("/back"), Some(vec![file("n.png")]));
    assert_eq!(c.index, 0);
}

#[test]
fn new_order_without_reading_again() {
    let mut c = Collection::new();
    let mut a = file("a.png");
    a.entry.size = Some(30);
    let mut b = file("b.png");
    b.entry.size = Some(10);
    let mut d = file("d.png");
    d.entry.size = Some(20);
    c.make_image_list(folder("/pics"), Some(vec![d, b, a]), SortDir::Name, &folder("/pics/a.png"));
    assert_eq!(names(&c.entries), ["a.png", "b.png", "d.png"]);
    assert_eq!(c.index, 0);
    c.make_image_list(folder("/pics"), None, SortDir::Size, &folder("/pics/a.png"));
    assert_eq!(names(&c.entries), ["b.png", "d.png", "a.png"]);
    assert_eq!(c.index, 2);
}

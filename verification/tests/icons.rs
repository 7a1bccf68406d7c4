use niri::app_icon::{
    app_icon_pixels, app_id_lookup_keys, icon_sources_for_app_id, load_app_icon_pixels,
    pixels_from_pixbuf, push_source, AppIconPixels, AppIconTexture, Pixbuf, PixelCache, PixelError,
};
use niri::desktop_entry::{
    build_desktop_entry_index, desktop_entry_index, desktop_file_id, is_desktop_name,
    parse_desktop_entry, scan_application_dir, trim_desktop_suffix, unescape_desktop_value,
    DesktopEntryIndex, DirEntry, IconSource,
};
use niri::icon_theme::{
    add_icon_file_candidates, best_first, has_known_icon_extension, icon_dir_size_fits,
    icon_file_names, icon_size_score, icon_size_score_fits, is_listing_fitting,
    parse_icon_dir_size, sorted_child_dirs, theme_priority, themed_icon_candidates, Files,
    RootListing, ThemeListing,
};
use niri::number::{Arithmetic, Number};
use niri::path::{name_extension, name_stem, split_paths, FilePath};
use niri::xdg::{application_dirs, data_dirs, icon_theme_dirs, pixmap_dirs, Environment};
use std::cell::RefCell;

fn bytes(text: &str) -> Vec<u8> {
    text.as_bytes().to_vec()
}

fn path(text: &str) -> FilePath {
    FilePath::from_text(text)
}

fn show(path: &FilePath) -> String {
    String::from_utf8(path.bytes.clone()).unwrap()
}

fn shown(paths: &[FilePath]) -> Vec<String> {
    paths.iter().map(show).collect()
}

fn source(source: &IconSource) -> String {
    match source {
        IconSource::File(path) => format!("file {}", show(path)),
        IconSource::Name(name) => format!("name {name}"),
    }
}

fn found(index: &DesktopEntryIndex, key: &str) -> Option<String> {
    index.get(key).map(source)
}

#[test]
fn escapes_are_decoded() {
    assert_eq!(unescape_desktop_value("plain"), "plain");
    assert_eq!(unescape_desktop_value(r"a\sb\nc\td\re\\f"), "a b\nc\td\re\\f");
    assert_eq!(unescape_desktop_value(r"\x\é"), r"\x\é");
    assert_eq!(unescape_desktop_value("end\\"), "end\\");
    assert_eq!(unescape_desktop_value(""), "");
    assert_eq!(unescape_desktop_value(r"\\s"), r"\s");
}

#[test]
fn icon_values_are_files_or_names() {
    assert_eq!(source(&IconSource::from_icon_value("/opt/a\\sb.png")), "file /opt/a b.png");
    assert_eq!(source(&IconSource::from_icon_value("firefox")), "name firefox");
    assert_eq!(source(&IconSource::from_icon_value("icons/firefox.png")), "name icons/firefox.png");
    assert_eq!(source(&IconSource::from_icon_value("")), "name ");
}

#[test]
fn desktop_suffix_is_removed() {
    assert_eq!(trim_desktop_suffix("org.gnome.Maps.desktop"), "org.gnome.Maps");
    assert_eq!(trim_desktop_suffix("org.gnome.Maps"), "org.gnome.Maps");
    assert_eq!(trim_desktop_suffix(".desktop"), "");
    assert_eq!(trim_desktop_suffix("ü.desktop"), "ü");
    assert_eq!(trim_desktop_suffix("a.desktop.desktop"), "a.desktop");
}

#[test]
fn lookup_keys() {
    let keys = app_id_lookup_keys("Org.Foo.desktop");
    assert_eq!(keys, ["Org.Foo.desktop", "Org.Foo", "org.foo"]);
    assert_eq!(app_id_lookup_keys("ÄÖ")[2], "äö");
}

#[test]
fn entries_are_parsed() {
    let entry = parse_desktop_entry(
        "# comment\nIcon=early\n[Desktop Entry]\r\nName=Foo\n  Icon=foo\\sbar  \nStartupWMClass=Foo Bar\n\
         [Desktop Action new]\nIcon=other\n",
    )
    .unwrap();
    assert_eq!(source(&entry.icon), "name foo bar");
    assert_eq!(entry.startup_wm_class.as_deref(), Some("Foo Bar"));
}

#[test]
fn later_lines_win_within_the_group() {
    let entry =
        parse_desktop_entry("[Desktop Entry]\nIcon=a\nIcon =b\nnonsense\nIcon=/c=d\n").unwrap();
    assert_eq!(source(&entry.icon), "file /c=d");
    assert!(entry.startup_wm_class.is_none());
}

#[test]
fn entries_without_icon_are_ignored() {
    assert!(parse_desktop_entry("[Desktop Entry]\nStartupWMClass=Foo\n").is_none());
    assert!(parse_desktop_entry("[desktop entry]\nIcon=foo\n").is_none());
    assert!(parse_desktop_entry("").is_none());
}

#[test]
fn file_ids_join_directories() {
    assert_eq!(desktop_file_id(&path("kde/foo.desktop")).as_deref(), Some("kde-foo.desktop"));
    assert_eq!(desktop_file_id(&path("foo.desktop")).as_deref(), Some("foo.desktop"));
    assert_eq!(desktop_file_id(&path("a//b/./c")).as_deref(), Some("a-b-c"));
    assert_eq!(desktop_file_id(&path("")).as_deref(), Some(""));
    assert_eq!(desktop_file_id(&path("/foo")), None);
    assert_eq!(desktop_file_id(&path("./foo")), None);
    assert_eq!(desktop_file_id(&path("a/../foo")), None);
    assert_eq!(desktop_file_id(&FilePath { bytes: vec![b'a', b'/', 0xff] }), None);
}

fn file(name: &str, contents: &str) -> DirEntry {
    DirEntry::File { name: bytes(name), contents: Some(contents.to_owned()) }
}

fn entry(icon: &str) -> String {
    format!("[Desktop Entry]\nIcon={icon}\n")
}

#[test]
fn keys_are_indexed_in_both_cases() {
    let mut index = DesktopEntryIndex::new();
    index.insert("  Foo.Bar\t", &IconSource::Name("one".to_owned()));
    assert_eq!(found(&index, "Foo.Bar").as_deref(), Some("name one"));
    assert_eq!(found(&index, "foo.bar").as_deref(), Some("name one"));
    assert_eq!(found(&index, "  Foo.Bar\t"), None);
    index.insert("foo.bar", &IconSource::Name("two".to_owned()));
    assert_eq!(found(&index, "foo.bar").as_deref(), Some("name one"));
    index.insert(" \u{3000}\u{a0}\u{2028}", &IconSource::Name("three".to_owned()));
    assert_eq!(found(&index, ""), None);
}

#[test]
fn directories_are_scanned() {
    let root = vec![
        DirEntry::Dir {
            name: bytes("kde"),
            entries: vec![file("App.desktop", &entry("kde-icon")), file("x.desktop", &entry("x1"))],
        },
        DirEntry::Dir { name: bytes("zzz"), entries: vec![file("x.desktop", &entry("x2"))] },
        file("top.desktop", "[Desktop Entry]\nIcon=top\nStartupWMClass=TopClass\n"),
        file("readme.txt", &entry("no")),
        DirEntry::File { name: bytes("unread.desktop"), contents: None },
        DirEntry::File { name: vec![0xff, b'.', b'd'], contents: Some(entry("no")) },
    ];
    let mut index = DesktopEntryIndex::new();
    scan_application_dir(&root, &mut index);
    assert_eq!(found(&index, "kde-App.desktop").as_deref(), Some("name kde-icon"));
    assert_eq!(found(&index, "kde-app").as_deref(), Some("name kde-icon"));
    assert_eq!(found(&index, "App").as_deref(), Some("name kde-icon"));
    assert_eq!(found(&index, "top").as_deref(), Some("name top"));
    assert_eq!(found(&index, "topclass").as_deref(), Some("name top"));
    assert_eq!(found(&index, "kde-x").as_deref(), Some("name x1"));
    assert_eq!(found(&index, "x").as_deref(), Some("name x2"));
    assert_eq!(found(&index, "readme"), None);
    assert_eq!(found(&index, "unread"), None);
}

#[test]
fn earlier_directories_win() {
    let roots = vec![
        vec![file("foo.desktop", &entry("user"))],
        vec![file("foo.desktop", &entry("system")), file("bar.desktop", &entry("bar"))],
    ];
    let index = build_desktop_entry_index(&roots);
    assert_eq!(found(&index, "foo").as_deref(), Some("name user"));
    assert_eq!(found(&index, "bar").as_deref(), Some("name bar"));
}

#[test]
fn index_is_built_once() {
    let mut slot = None;
    let first = desktop_entry_index(&mut slot, || vec![vec![file("a.desktop", &entry("a"))]]);
    assert_eq!(found(first, "a").as_deref(), Some("name a"));
    let second = desktop_entry_index(&mut slot, || panic!("built twice"));
    assert_eq!(found(second, "a").as_deref(), Some("name a"));
}

#[test]
fn sources_prefer_desktop_entries() {
    let index = build_desktop_entry_index(&vec![vec![file("org.Foo.desktop", &entry("/i/foo.png"))]]);
    let sources = icon_sources_for_app_id(&index, "org.Foo.desktop");
    let shown: Vec<String> = sources.iter().map(source).collect();
    assert_eq!(shown, ["file /i/foo.png", "name org.Foo", "name org.foo", "name foo"]);
    let unknown = icon_sources_for_app_id(&index, "bar");
    let shown: Vec<String> = unknown.iter().map(source).collect();
    assert_eq!(shown, ["name bar"]);
}

#[test]
fn sources_are_not_repeated() {
    let mut sources = vec![];
    push_source(&mut sources, IconSource::File(path("/a//b")));
    push_source(&mut sources, IconSource::File(path("/a/./b/")));
    push_source(&mut sources, IconSource::Name("/a/b".to_owned()));
    push_source(&mut sources, IconSource::Name("/a/b".to_owned()));
    assert_eq!(sources.len(), 2);
}

fn env(home: Option<&str>, data_home: Option<&str>, data_dirs: Option<&str>) -> Environment {
    Environment {
        home: home.map(path),
        data_home: data_home.map(path),
        data_dirs: data_dirs.map(path),
    }
}

#[test]
fn data_directories() {
    let all = env(Some("/home/me"), Some("/data/"), Some("/x:/y"));
    assert_eq!(
        shown(&application_dirs(&all)),
        ["/data/applications", "/x/applications", "/y/applications"]
    );
    assert_eq!(
        shown(&icon_theme_dirs(&all)),
        ["/data/icons", "/x/icons", "/y/icons", "/home/me/.icons"]
    );
    let home = env(Some("/home/me"), None, None);
    assert_eq!(
        shown(&pixmap_dirs(&home)),
        ["/home/me/.local/share/pixmaps", "/usr/local/share/pixmaps", "/usr/share/pixmaps"]
    );
    let bare = env(None, None, Some(":/y"));
    assert_eq!(shown(&data_dirs(&bare, "icons")), ["icons", "/y/icons"]);
    assert_eq!(shown(&icon_theme_dirs(&env(None, None, Some("/y")))), ["/y/icons"]);
}

#[test]
fn paths_behave() {
    assert_eq!(show(&path("/a").join(&path("b"))), "/a/b");
    assert_eq!(show(&path("/a/").join(&path("b"))), "/a/b");
    assert_eq!(show(&path("").join(&path("b"))), "b");
    assert_eq!(show(&path("/a").join(&path("/b"))), "/b");
    assert_eq!(show(&path("/a").join(&path(""))), "/a/");
    assert!(path("a/./b//c/").is_same(&path("a/b/c")));
    assert!(!path("./a").is_same(&path("a")));
    assert!(!path("/a").is_same(&path("a")));
    assert_eq!(path("/a/b.c/").file_name(), Some(bytes("b.c")));
    assert_eq!(path("/a/..").file_name(), None);
    assert_eq!(path("/").file_name(), None);
    assert_eq!(shown(&split_paths(&path("a::b"))), ["a", "", "b"]);
    assert_eq!(name_extension(&bytes("a.b.c")), Some(bytes("c")));
    assert_eq!(name_extension(&bytes(".desktop")), None);
    assert_eq!(name_extension(&bytes("a.")), Some(vec![]));
    assert_eq!(name_extension(&bytes("..")), None);
    assert_eq!(name_stem(&bytes("a.b.c")), bytes("a.b"));
    assert_eq!(name_stem(&bytes(".desktop")), bytes(".desktop"));
    assert!(is_desktop_name(&bytes("x.desktop")));
    assert!(!is_desktop_name(&bytes(".desktop")));
}

#[test]
fn paths_agree_with_the_standard_library() {
    let samples = [
        "", ".", "..", "/", "//", "a", "a/", "/a", "./a", "a/.", "a/./b", "a//b", "a/../b", "/.",
        "/..", "a.b", "a.b.c", ".a", "..a", "a.", "a/.b", "a/b.svg/", "...", "a/..",
    ];
    for a in samples {
        let p = std::path::Path::new(a);
        let q = path(a);
        assert_eq!(q.is_absolute(), p.is_absolute(), "{a}");
        let name = p.file_name().map(|s| bytes(s.to_str().unwrap()));
        assert_eq!(q.file_name(), name, "{a}");
        if let Some(name) = name {
            let ext = p.extension().map(|s| bytes(s.to_str().unwrap()));
            assert_eq!(name_extension(&name), ext, "{a}");
            assert_eq!(name_stem(&name), bytes(p.file_stem().unwrap().to_str().unwrap()), "{a}");
        }
        for b in samples {
            assert_eq!(show(&q.join(&path(b))), p.join(b).to_str().unwrap(), "{a} {b}");
            assert_eq!(q.is_same(&path(b)), p == std::path::Path::new(b), "{a} {b}");
        }
    }
}

#[test]
fn icon_names_become_file_names() {
    assert!(has_known_icon_extension("foo.svg"));
    assert!(has_known_icon_extension("a/foo.xpm"));
    assert!(!has_known_icon_extension("org.foo.Bar"));
    assert!(!has_known_icon_extension(".png"));
    assert_eq!(icon_file_names("foo.png"), [(0, "foo.png".to_owned())]);
    assert_eq!(
        icon_file_names("org.foo"),
        [
            (0, "org.foo.svg".to_owned()),
            (1, "org.foo.png".to_owned()),
            (2, "org.foo.xpm".to_owned())
        ]
    );
}

#[test]
fn size_directories_are_parsed() {
    assert_eq!(parse_icon_dir_size("48x48"), Some(48));
    assert_eq!(parse_icon_dir_size("32x32@2"), Some(64));
    assert_eq!(parse_icon_dir_size("16x24@0"), Some(24));
    assert_eq!(parse_icon_dir_size("+16x-24@-3"), Some(16));
    assert_eq!(parse_icon_dir_size("48"), None);
    assert_eq!(parse_icon_dir_size("48x"), None);
    assert_eq!(parse_icon_dir_size("x48"), None);
    assert_eq!(parse_icon_dir_size("-x48"), None);
    assert_eq!(parse_icon_dir_size("48x48@"), None);
    assert_eq!(parse_icon_dir_size("48x48x48"), None);
    assert_eq!(parse_icon_dir_size("2147483648x1"), None);
    assert_eq!(parse_icon_dir_size("2147483647x-2147483648"), Some(2147483647));
    assert_eq!(parse_icon_dir_size("-2147483649x-5"), None);
    assert!(icon_dir_size_fits("2147483647x1"));
    assert!(!icon_dir_size_fits("2147483647x1@2"));
}

#[test]
fn size_directories_are_scored() {
    assert_eq!(icon_size_score("48x48", 48), 0);
    assert_eq!(icon_size_score("48x48", 64), 16);
    assert_eq!(icon_size_score("64x64", 48), 16);
    assert_eq!(icon_size_score("9000x9000", 48), 1999);
    assert_eq!(icon_size_score("Scalable", 48), 0);
    assert_eq!(icon_size_score("symbolic-scalable", 48), 2000);
    assert_eq!(icon_size_score("cursors", 48), 1000);
    assert_eq!(icon_size_score("48X48@2", 96), 0);
    assert!(!icon_size_score_fits("2147483647x1", -1));
    assert!(icon_size_score_fits("2147483647x1-scalable", -1));
}

#[test]
fn themes_are_ranked() {
    let wanted = Some("Papirus".to_owned());
    assert_eq!(theme_priority(&"Papirus".to_owned(), &wanted), 0);
    assert_eq!(theme_priority(&"hicolor".to_owned(), &wanted), 10);
    assert_eq!(theme_priority(&"Adwaita".to_owned(), &wanted), 20);
    assert_eq!(theme_priority(&"Papirus".to_owned(), &None), 100);
    assert_eq!(theme_priority(&"hicolor".to_owned(), &Some("hicolor".to_owned())), 0);
}

#[test]
fn children_are_sorted() {
    let names = vec![bytes("b"), bytes("ab"), bytes("a"), bytes("B"), vec![]];
    let expected = vec![vec![], bytes("B"), bytes("a"), bytes("ab"), bytes("b")];
    assert_eq!(sorted_child_dirs(names), expected);
}

struct Disk {
    files: Vec<&'static str>,
}

impl Files for Disk {
    fn is_file(&self, path: &FilePath) -> bool {
        self.files.iter().any(|file| file.as_bytes() == path.bytes.as_slice())
    }
}

#[test]
fn existing_files_become_candidates() {
    let disk = Disk { files: vec!["/i/foo.png", "/i/foo.xpm"] };
    let mut candidates = vec![];
    add_icon_file_candidates(&mut candidates, &disk, &path("/i"), "foo", (1, 2, 3, 4));
    let scores: Vec<_> = candidates.iter().map(|c| c.0).collect();
    assert_eq!(scores, [(1, 2, 3, 1, 4), (1, 2, 3, 2, 4)]);
    assert_eq!(show(&candidates[0].1), "/i/foo.png");
}

#[test]
fn best_candidates_come_first_without_repeats() {
    let candidates = vec![
        ((1, 0, 0, 0, 0), path("/b")),
        ((0, 5, 0, 0, 0), path("/a")),
        ((1, 0, 0, 0, 0), path("/b/")),
        ((0, 5, 0, 0, 1), path("/c")),
        ((2, 0, 0, 0, 0), path("/a")),
    ];
    assert_eq!(shown(&best_first(candidates)), ["/a", "/c", "/b", "/a"]);
}

fn listing() -> Vec<RootListing> {
    vec![RootListing {
        path: path("/icons"),
        themes: vec![
            ThemeListing { name: bytes("zzz"), sizes: vec![bytes("48x48")] },
            ThemeListing {
                name: bytes("hicolor"),
                sizes: vec![bytes("scalable"), bytes("48x48"), bytes("32x32"), vec![0xff]],
            },
            ThemeListing { name: vec![0xff], sizes: vec![bytes("48x48")] },
        ],
    }]
}

#[test]
fn themed_candidates_are_ranked() {
    let disk = Disk {
        files: vec![
            "/icons/zzz/48x48/apps/foo.svg",
            "/icons/hicolor/32x32/apps/foo.png",
            "/icons/hicolor/48x48/foo.svg",
            "/icons/hicolor/48x48/apps/foo.png",
            "/icons/hicolor/scalable/apps/foo.svg",
            "/pix/pixmaps/foo.xpm",
        ],
    };
    let here = env(None, None, Some("/pix"));
    assert!(is_listing_fitting(&listing(), 48));
    let paths = themed_icon_candidates(&disk, listing(), &here, &None, "foo", 48);
    assert_eq!(
        shown(&paths),
        [
            "/icons/hicolor/scalable/apps/foo.svg",
            "/icons/hicolor/48x48/apps/foo.png",
            "/icons/hicolor/48x48/foo.svg",
            "/icons/hicolor/32x32/apps/foo.png",
            "/icons/zzz/48x48/apps/foo.svg",
            "/pix/pixmaps/foo.xpm",
        ]
    );
    let wanted = Some("zzz".to_owned());
    let paths = themed_icon_candidates(&disk, listing(), &here, &wanted, "foo", 48);
    assert_eq!(show(&paths[0]), "/icons/zzz/48x48/apps/foo.svg");
}

#[test]
fn huge_sizes_do_not_fit() {
    let roots = vec![RootListing {
        path: path("/icons"),
        themes: vec![ThemeListing { name: bytes("a"), sizes: vec![bytes("65536x1@65536")] }],
    }];
    assert!(!is_listing_fitting(&roots, 48));
}

fn pixbuf(channels: i32, rowstride: i32, bytes: Vec<u8>) -> Pixbuf {
    Pixbuf { bits_per_sample: 8, width: 2, height: 2, n_channels: channels, rowstride, bytes }
}

#[test]
fn pixels_are_packed() {
    let rgb = pixbuf(3, 8, vec![1, 2, 3, 4, 5, 6, 0, 0, 7, 8, 9, 10, 11, 12]);
    let icon = pixels_from_pixbuf(&rgb).unwrap();
    assert_eq!(
        icon.data,
        [1, 2, 3, 255, 4, 5, 6, 255, 7, 8, 9, 255, 10, 11, 12, 255]
    );
    assert_eq!((icon.width, icon.height), (2, 2));
    let rgba = pixbuf(4, 8, (0..16).collect());
    assert_eq!(pixels_from_pixbuf(&rgba).unwrap().data, (0..16).collect::<Vec<u8>>());
}

#[test]
fn bad_images_are_refused() {
    let error = |pixbuf: &Pixbuf| pixels_from_pixbuf(pixbuf).unwrap_err();
    let mut deep = pixbuf(3, 8, vec![0; 14]);
    deep.bits_per_sample = 16;
    assert_eq!(error(&deep), PixelError::NotEightBit);
    let mut empty = pixbuf(3, 8, vec![0; 14]);
    empty.height = 0;
    assert_eq!(error(&empty), PixelError::Empty);
    assert_eq!(error(&pixbuf(2, 8, vec![0; 14])), PixelError::Channels);
    assert_eq!(error(&pixbuf(3, 8, vec![0; 13])), PixelError::Truncated);
    let backwards = pixbuf(3, -8, vec![0; 14]);
    assert!(backwards.is_countable());
    assert_eq!(error(&backwards), PixelError::Truncated);
    assert!(!pixbuf(3, -6, vec![0; 14]).is_countable());
    let mut flat = pixbuf(3, 0, vec![0; 0]);
    flat.width = i32::MAX;
    flat.height = i32::MAX;
    assert!(flat.is_countable());
    assert_eq!(PixelError::NotEightBit.message(), "expected 8-bit app icon");
    assert_eq!(PixelError::Empty.message(), "empty app icon");
    assert_eq!(PixelError::Channels.message(), "unexpected app icon channels");
    assert_eq!(PixelError::Truncated.message(), "truncated app icon pixel data");
}

fn icon(width: i32) -> AppIconPixels {
    AppIconPixels { data: vec![], width, height: 1 }
}

#[test]
fn first_usable_icon_is_loaded() {
    let index = build_desktop_entry_index(&vec![vec![file("foo.desktop", &entry("/broken.png"))]]);
    let tried = RefCell::new(vec![]);
    let loaded = load_app_icon_pixels(
        &index,
        "foo",
        48,
        |name: &String, size| {
            assert_eq!(size, 48);
            vec![path(&format!("/{name}/1")), path(&format!("/{name}/2"))]
        },
        |path: &FilePath, size| {
            tried.borrow_mut().push(show(path));
            (show(path) == "/foo/2").then_some(icon(size))
        },
    );
    assert_eq!(loaded.unwrap().width, 48);
    assert_eq!(tried.into_inner(), ["/broken.png", "/foo/1", "/foo/2"]);
}

#[test]
fn lookups_are_cached_also_without_icon() {
    let mut cache = PixelCache::new();
    assert_eq!(app_icon_pixels(&mut cache, "a", 48, || Some(icon(3))).as_ref().unwrap().width, 3);
    assert!(app_icon_pixels(&mut cache, "a", 32, || None).is_none());
    assert!(app_icon_pixels(&mut cache, "b", 48, || None).is_none());
    let again = app_icon_pixels(&mut cache, "a", 48, || panic!("loaded twice"));
    assert_eq!(again.as_ref().unwrap().width, 3);
    assert!(app_icon_pixels(&mut cache, "a", 32, || panic!("loaded twice")).is_none());
}

struct Floats;

fn n(x: f64) -> Number {
    Number::new(x.to_bits())
}

fn f(x: Number) -> f64 {
    f64::from_bits(x.bits)
}

impl Arithmetic for Floats {
    fn sum(&self, x: Number, y: Number) -> Number {
        n(f(x) + f(y))
    }

    fn difference(&self, x: Number, y: Number) -> Number {
        n(f(x) - f(y))
    }

    fn product(&self, x: Number, y: Number) -> Number {
        n(f(x) * f(y))
    }

    fn quotient(&self, x: Number, y: Number) -> Number {
        n(f(x) / f(y))
    }

    fn root(&self, x: Number) -> Number {
        n(f(x).sqrt())
    }

    fn ceiling(&self, x: Number) -> Number {
        n(f(x).ceil())
    }

    fn nearest(&self, x: Number) -> Number {
        n(f(x).round())
    }

    fn narrow(&self, x: Number) -> Number {
        n(f(x) as f32 as f64)
    }

    fn number(&self, k: i128) -> Number {
        n(k as f64)
    }

    fn whole(&self, x: Number) -> i64 {
        f(x) as i64
    }

    fn seconds(&self, nanos: u128) -> Number {
        n(nanos as f64 / 1e9)
    }
}

#[test]
fn textures_are_kept_until_something_changes() {
    let mut texture: AppIconTexture<i32> = AppIconTexture::new();
    let app = || Some("app".to_owned());
    assert_eq!(texture.get_stale(), None);
    let got = texture.get(&Floats, app(), n(31.7), n(1.5), |id: &String, size| {
        assert_eq!(id, "app");
        Some(size)
    });
    assert_eq!(got, Some(&48));
    let same = texture.get(&Floats, app(), n(31.7), n(1.5), |_: &String, _| panic!("again"));
    assert_eq!(same, Some(&48));
    assert_eq!(texture.get_stale(), Some(&48));
    assert_eq!(texture.get(&Floats, app(), n(16.), n(3.), |_: &String, _| None), None);
    let missing = texture.get(&Floats, app(), n(16.), n(3.), |_: &String, _| panic!("again"));
    assert_eq!(missing, None);
    assert_eq!(texture.get_stale(), None);
    let tiny = texture.get(&Floats, app(), n(0.), n(1.), |_: &String, size| Some(size));
    assert_eq!(tiny, Some(&1));
    assert_eq!(texture.get(&Floats, None, n(0.), n(1.), |_: &String, _| panic!("no app")), None);
}

use rusty_gallery::density::Density;
use rusty_gallery::gallery::browse::{
    breadcrumb_parts, image_paths, neighbor_index, search_hits, status_left, thumb_progress,
};
use rusty_gallery::gallery::control::{
    clipboard_text, close_step, crumb_opens, drop_hint, external_drop, status_path, tile_drop,
    up_target, watch_step, CloseStep, DropHint, DropPlan, Dropped, WatchStep,
};
use rusty_gallery::gallery::nav::{
    move_focus, neighbor_indices, step_image, visible_image_indices, visible_indices, Filter,
};
use rusty_gallery::gallery::ops::{
    dest_job, paste, rename_start, trash_candidates, trash_prompt, trash_reopens, Batch, BatchKind,
    Clip, Job, PasteStart, PendingKind, Progress, RenameStart, UndoItem, UndoRun,
};
use rusty_gallery::gallery::prompt::{NameBox, NameKind, NameStep, SearchBox};
use rusty_gallery::gallery::selection::{OpenAction, Selection};
use rusty_gallery::media::fs::{
    duplicate, move_into, rename_path, restore_path, trash_destination, Collision, DestFacts, FsError, Transfer,
};
use rusty_gallery::media::preview::{
    can_paint_directly, embedded_preview, find_eoi, first_frame_jpeg, is_animated, preview_jpeg,
    reencode, settle_preview, written_bytes, Preview,
};
use rusty_gallery::media::scan::{scan_browse, scan_folder_recursive, RawEntry};
use rusty_gallery::media::types::{
    extension, is_hidden, is_media_path, media_kind, Entry, FolderItem, MediaItem, MediaKind,
};
use rusty_gallery::path::LibPath;
use rusty_gallery::prefs::Prefs;
use rusty_gallery::sort::{sort_entries, SortKey};
use rusty_gallery::tray::icon_pixels;

fn path(text: &str) -> LibPath {
    LibPath::parse(text)
}

fn image(p: &str, name: &str, modified: u64, size: u64) -> Entry {
    Entry::Media(MediaItem {
        path: path(p),
        name: name.to_string(),
        kind: MediaKind::Image,
        modified,
        size,
    })
}

fn video(p: &str, name: &str) -> Entry {
    Entry::Media(MediaItem {
        path: path(p),
        name: name.to_string(),
        kind: MediaKind::Video,
        modified: 0,
        size: 0,
    })
}

fn folder(p: &str, name: &str) -> Entry {
    Entry::Folder(FolderItem { path: path(p), name: name.to_string(), media_count: 0, modified: 0 })
}

fn names_of(entries: &[Entry]) -> Vec<String> {
    entries.iter().map(|e| e.name().clone()).collect()
}

fn texts(paths: &[LibPath]) -> Vec<String> {
    paths.iter().map(|p| p.to_text()).collect()
}

fn sample() -> Vec<Entry> {
    vec![
        folder("/lib/trips", "trips"),
        image("/lib/a.jpg", "a.jpg", 3, 30),
        video("/lib/b.mov", "b.mov"),
        image("/lib/c.png", "c.png", 1, 10),
    ]
}

// Paths

#[test]
fn path_text_reads_back_as_written() {
    for text in ["/", "/lib", "/lib/album/shot 1.jpg", "album/x.png", "../up/x", "./a/b", "."] {
        assert_eq!(path(text).to_text(), text);
        assert_eq!(path(&path(text).to_text()), path(text));
    }
    assert_eq!(path("a//b/./c/").to_text(), "a/b/c");
    assert_eq!(path("./a").parts, vec![".".to_string(), "a".to_string()]);
}

#[test]
fn path_parent_and_file_name() {
    let p = path("/lib/album/shot.jpg");
    assert_eq!(p.parent().unwrap().to_text(), "/lib/album");
    assert_eq!(p.file_name().unwrap(), "shot.jpg");
    assert!(path("/").parent().is_none());
    assert!(path("/").file_name().is_none());
    assert!(p.starts_with(&path("/lib")));
    assert!(!p.starts_with(&path("/li")));
}

// Preferences

#[test]
fn prefs_text_reads_back_with_twelve_recents() {
    let mut prefs = Prefs::new();
    for i in 0..14 {
        prefs.recents.push(path(&format!("/pics/r{i}")));
    }
    prefs.saved.push(path("/pics/keep"));
    prefs.saved.push(path("/other/two words"));
    prefs.flat_mode = true;
    let back = Prefs::parse(&prefs.to_text());
    assert_eq!(back.recents.len(), 12);
    assert_eq!(texts(&back.recents), texts(&prefs.recents[..12]));
    assert_eq!(texts(&back.saved), vec!["/pics/keep", "/other/two words"]);
    assert!(back.flat_mode);
}

#[test]
fn prefs_paths_read_back_as_the_same_paths() {
    // a path whose text is not in component form still reads back as the
    // same path, component by component
    let mut prefs = Prefs::new();
    prefs.saved.push(path("/pics").join("a/b"));
    let back = Prefs::parse(&prefs.to_text());
    assert_eq!(back.saved.len(), 1);
    assert!(back.saved[0].same(&path("/pics/a/b")));
    assert_eq!(back.saved[0].parts, vec!["/", "pics", "a", "b"]);
}

#[test]
fn prefs_text_has_the_stored_layout() {
    let mut prefs = Prefs::new();
    prefs.recents.push(path("/a"));
    prefs.saved.push(path("/b"));
    assert_eq!(prefs.to_text(), "[flags]\nflat=0\n\n[recents]\n/a\n\n[saved]\n/b\n");
}

#[test]
fn prefs_parse_skips_unknown_and_blank_lines() {
    let text = "junk\n[flags]\n  flat=1  \nflat=2\n\n[recents]\n /x \n[other]\n/y\n[saved]\n/z";
    let prefs = Prefs::parse(text);
    assert!(prefs.flat_mode);
    assert_eq!(texts(&prefs.recents), vec!["/x"]);
    assert_eq!(texts(&prefs.saved), vec!["/z"]);
}

#[test]
fn touch_recent_moves_to_front_once_and_caps() {
    let mut prefs = Prefs::new();
    for i in 0..12 {
        prefs.recents.push(path(&format!("/r{i}")));
    }
    prefs.touch_recent(&path("/r5"));
    assert_eq!(prefs.recents.len(), 12);
    assert_eq!(prefs.recents[0].to_text(), "/r5");
    assert_eq!(prefs.recents.iter().filter(|p| p.to_text() == "/r5").count(), 1);
    prefs.touch_recent(&path("/new"));
    assert_eq!(prefs.recents.len(), 12);
    assert_eq!(prefs.recents[0].to_text(), "/new");
    assert!(prefs.recents.iter().all(|p| p.to_text() != "/r11"));
}

#[test]
fn toggle_saved_twice_restores() {
    let mut prefs = Prefs::new();
    prefs.saved.push(path("/a"));
    let lib = path("/lib");
    assert!(!prefs.is_saved(&lib));
    prefs.toggle_saved(&lib);
    assert!(prefs.is_saved(&lib));
    assert_eq!(prefs.saved[0].to_text(), "/lib");
    prefs.toggle_saved(&lib);
    assert!(!prefs.is_saved(&lib));
    assert_eq!(texts(&prefs.saved), vec!["/a"]);
    assert_eq!(Prefs::path(&path("/home/app")).to_text(), "/home/app/prefs.txt");
}

// Sorting, density, keys

#[test]
fn sort_puts_folders_first_and_orders_by_key() {
    let mut entries = vec![
        image("/l/B.jpg", "B.jpg", 5, 100),
        folder("/l/z", "z"),
        image("/l/a.jpg", "a.jpg", 9, 50),
        image("/l/c.jpg", "c.jpg", 1, 50),
        folder("/l/Y", "Y"),
    ];
    sort_entries(&mut entries, SortKey::Name, false);
    assert_eq!(names_of(&entries), vec!["Y", "z", "a.jpg", "B.jpg", "c.jpg"]);
    sort_entries(&mut entries, SortKey::Name, true);
    assert_eq!(names_of(&entries), vec!["z", "Y", "c.jpg", "B.jpg", "a.jpg"]);
    sort_entries(&mut entries, SortKey::Modified, false);
    assert_eq!(names_of(&entries)[2..].to_vec(), vec!["c.jpg", "B.jpg", "a.jpg"]);
    // equal sizes keep their order
    sort_entries(&mut entries, SortKey::Size, false);
    assert_eq!(names_of(&entries)[2..].to_vec(), vec!["c.jpg", "a.jpg", "B.jpg"]);
}

#[test]
fn sort_key_and_density_prefs_round_trip() {
    for k in [SortKey::Name, SortKey::Modified, SortKey::Size, SortKey::Type] {
        assert_eq!(SortKey::from_pref(k.as_pref()), k);
        assert_eq!(k.next().next().next().next(), k);
    }
    assert_eq!(SortKey::from_pref("bogus"), SortKey::Name);
    assert_eq!(SortKey::Modified.label(), "Date");
    for d in [Density::Small, Density::Medium, Density::Large] {
        assert_eq!(Density::from_pref(d.as_pref()), d);
    }
    assert_eq!(Density::from_pref("huge"), Density::Medium);
    assert_eq!(Density::Large.label(), "L");
    assert_eq!(
        (Density::Small.target(), Density::Medium.target(), Density::Large.target()),
        (120, 176, 248)
    );
}

// Media classification and listings

#[test]
fn media_kinds_follow_extensions() {
    assert_eq!(media_kind(&path("/a/b.JPG")), Some(MediaKind::Image));
    assert_eq!(media_kind(&path("/a/b.mov")), Some(MediaKind::Video));
    assert_eq!(media_kind(&path("/a/notes.txt")), None);
    assert!(is_media_path(&path("/a/raw.cr2")));
    assert!(is_hidden(&path("/a/.secret.jpg")));
    assert!(!is_hidden(&path("/a/open.jpg")));
    assert_eq!(extension(&path("/a/archive.tar.gz")).unwrap(), "gz");
    assert_eq!(extension(&path("/a/.hidden")), None);
    assert!(is_animated(&path("/a/loop.GIF")));
    assert!(is_animated(&path("/a/clip.webp")));
    assert!(!is_animated(&path("/a/still.png")));
    assert!(can_paint_directly(&path("/a/still.png")));
    assert!(!can_paint_directly(&path("/a/raw.cr2")));
    assert!(!can_paint_directly(&path("/a/phone.heic")));
    assert!(!can_paint_directly(&path("/a/new.AVIF")));
    assert!(!can_paint_directly(&path("/a/new.jxl")));
}

fn raw(p: &str, is_dir: bool, modified: u64, size: u64) -> RawEntry {
    RawEntry { path: path(p), is_dir, is_file: !is_dir, modified, size, media_count: 2 }
}

#[test]
fn browse_listing_keeps_folders_then_media() {
    let raws = vec![
        raw("/lib/b.jpg", false, 1, 10),
        raw("/lib/.hidden", true, 1, 0),
        raw("/lib/Album", true, 2, 0),
        raw("/lib/notes.txt", false, 1, 5),
        raw("/lib/node_modules", true, 1, 0),
        raw("/lib/A.png", false, 3, 20),
    ];
    let ignore = vec!["node_modules".to_string()];
    let out = scan_browse(&raws, &ignore);
    assert_eq!(names_of(&out), vec!["Album", "A.png", "b.jpg"]);
    assert!(out[0].is_folder());
    assert_eq!(out[1].size(), 20);
}

#[test]
fn flat_listing_names_by_relative_path() {
    let files = vec![
        raw("/lib/trip/day2/z.jpg", false, 1, 1),
        raw("/lib/a.mov", false, 1, 1),
        raw("/lib/trip/.x.jpg", false, 1, 1),
        raw("/lib/trip/readme.md", false, 1, 1),
    ];
    let out = scan_folder_recursive(&path("/lib"), &files);
    assert_eq!(names_of(&out), vec!["a.mov", "trip/day2/z.jpg"]);
}

// Previews

#[test]
fn finds_end_of_image_after_offset() {
    // lengths from `from`, through the first marker at least two bytes in
    let data = [0xffu8, 0xd8, 0xff, 0xd9, 0, 0xff, 0xd9];
    assert_eq!(find_eoi(&data, 0), Some(4));
    assert_eq!(find_eoi(&data, 3), Some(4));
    assert_eq!(find_eoi(&data, 1), Some(6));
    assert_eq!(find_eoi(&[0xff, 0xd8, 0xff], 0), None);
}

fn jpeg_bytes(w: u32, h: u32) -> Vec<u8> {
    let img = image::RgbImage::from_pixel(w, h, image::Rgb([200, 30, 60]));
    let mut bytes = Vec::new();
    image::DynamicImage::ImageRgb8(img)
        .write_to(&mut std::io::Cursor::new(&mut bytes), image::ImageFormat::Jpeg)
        .unwrap();
    bytes
}

#[test]
fn embedded_preview_is_downscaled() {
    let mut blob = vec![1u8, 2, 3, 4];
    blob.extend_from_slice(&jpeg_bytes(200, 100));
    blob.extend_from_slice(&[9, 9, 9]);
    let out = embedded_preview(&blob, 64).expect("preview");
    let img = image::load_from_memory(&out).unwrap();
    assert!(img.width() <= 64 && img.height() <= 64);
    assert_eq!(img.width(), 64);
    assert!(embedded_preview(&[1, 2, 3], 64).is_none());
}

#[test]
fn encodes_png_with_alpha_as_jpeg_thumb() {
    let mut img = image::RgbaImage::new(16, 16);
    for pixel in img.pixels_mut() {
        *pixel = image::Rgba([40, 180, 90, 128]);
    }
    let mut png = Vec::new();
    image::DynamicImage::ImageRgba8(img)
        .write_to(&mut std::io::Cursor::new(&mut png), image::ImageFormat::Png)
        .unwrap();
    let thumb = preview_jpeg(&png, "png", 320);
    assert!(matches!(thumb, Preview::Jpeg(_)), "alpha PNG should still produce a thumb");
}

#[test]
fn preview_falls_back_to_embedded_jpeg() {
    let mut blob = vec![0u8; 16];
    blob.extend_from_slice(&jpeg_bytes(40, 20));
    match preview_jpeg(&blob, "cr2", 16) {
        Preview::Jpeg(b) => {
            let img = image::load_from_memory(&b).unwrap();
            assert_eq!((img.width(), img.height()), (16, 8));
        }
        other => panic!("expected a preview, got {other:?}"),
    }
    assert_eq!(preview_jpeg(&[0u8; 32], "cr2", 16), Preview::Undecodable);
}

// Navigation and selection

#[test]
fn filters_and_focus_moves() {
    let entries = sample();
    assert_eq!(visible_indices(&entries, Filter::All), vec![0, 1, 2, 3]);
    assert_eq!(visible_indices(&entries, Filter::Videos), vec![2]);
    assert_eq!(visible_image_indices(&entries, Filter::All), vec![1, 3]);
    let vis = visible_indices(&entries, Filter::All);
    assert_eq!(move_focus(&vis, Some(3), 1, true), Some(0));
    assert_eq!(move_focus(&vis, Some(3), 1, false), Some(3));
    assert_eq!(move_focus(&vis, Some(0), -1, true), Some(3));
    assert_eq!(move_focus(&vis, None, 2, false), Some(2));
    assert_eq!(move_focus(&[], Some(1), 1, true), None);
}

#[test]
fn stepping_images_wraps_and_skips_others() {
    let entries = sample();
    assert_eq!(step_image(&entries, Filter::All, Some(1), None, 1), Some(3));
    assert_eq!(step_image(&entries, Filter::All, Some(3), None, 1), Some(1));
    assert_eq!(step_image(&entries, Filter::All, Some(1), None, -1), Some(3));
    assert_eq!(step_image(&entries, Filter::All, None, Some(0), 1), Some(1));
    assert_eq!(step_image(&entries, Filter::Videos, None, Some(0), 1), None);
    assert_eq!(neighbor_indices(&[1, 3, 5], 3), vec![1, 5]);
}

#[test]
fn opening_entries_reports_what_to_do() {
    let entries = sample();
    let mut sel = Selection::new();
    assert_eq!(sel.open_entry(&entries, 0), OpenAction::LoadFolder(path("/lib/trips")));
    assert_eq!(sel.selected, None);
    assert_eq!(sel.open_entry(&entries, 1), OpenAction::ShowImage);
    assert_eq!(sel.selected, Some(1));
    assert_eq!(sel.checked, vec![1]);
    assert_eq!(sel.open_entry(&entries, 2), OpenAction::PlayVideo(path("/lib/b.mov")));
    assert_eq!(sel.open_entry(&entries, 9), OpenAction::Nothing);
}

#[test]
fn checks_ranges_and_menus() {
    let mut sel = Selection::new();
    sel.toggle_checked(3);
    sel.toggle_checked(1);
    assert_eq!(sel.checked, vec![1, 3]);
    sel.toggle_checked(3);
    assert_eq!(sel.checked, vec![1]);
    sel.range_check(&[0, 1, 2, 3], 1);
    assert_eq!(sel.checked, vec![1, 2, 3]);
    assert_eq!(sel.focused, Some(1));
    assert!(sel.menu_at(2, false));
    assert_eq!(sel.checked, vec![1, 2, 3]);
    assert!(sel.menu_at(0, false));
    assert_eq!(sel.checked, vec![0]);
    assert_eq!(sel.anchor, Some(0));
    assert!(!sel.menu_at(2, true));
    assert_eq!(sel.current_index(4), Some(0));
    sel.selected = Some(7);
    assert_eq!(sel.current_index(4), None);
    assert!(!sel.menu_at(2, false));
    assert_eq!(sel.action_indices(), vec![0]);
}

#[test]
fn reload_restores_focus_and_lightbox() {
    let entries = sample();
    let mut sel = Selection::new();
    sel.after_load(&entries, Some(&path("/lib/c.png")), true);
    assert_eq!(sel.focused, Some(3));
    assert_eq!(sel.selected, Some(3));
    sel.after_load(&entries, Some(&path("/lib/gone.png")), true);
    assert_eq!(sel.focused, Some(0));
    assert_eq!(sel.selected, None);
    sel.after_load(&Vec::new(), None, false);
    assert_eq!(sel.focused, None);
}

// Breadcrumbs, search and status

#[test]
fn breadcrumbs_walk_from_the_root() {
    let crumbs = breadcrumb_parts(&path("/home/pics"), &path("/home/pics/2024/june"));
    let labels: Vec<&str> = crumbs.iter().map(|c| c.label.as_str()).collect();
    assert_eq!(labels, vec!["pics", "2024", "june"]);
    assert_eq!(crumbs[0].target, Some(path("/home/pics")));
    assert_eq!(crumbs[1].target, Some(path("/home/pics/2024")));
    assert_eq!(crumbs[2].target, None);
    let alone = breadcrumb_parts(&path("/"), &path("/"));
    assert_eq!(alone.len(), 1);
    assert_eq!(alone[0].label, "library");
}

#[test]
fn search_matches_names_ignoring_case() {
    let entries = vec![image("/l/Beach.jpg", "Beach.jpg", 0, 0), video("/l/beach.mov", "beach.mov"), image("/l/sky.jpg", "sky.jpg", 0, 0)];
    assert_eq!(search_hits(&entries, Filter::All, "BEACH"), vec![0, 1]);
    assert_eq!(search_hits(&entries, Filter::Images, "beach"), vec![0]);
    assert_eq!(search_hits(&entries, Filter::All, ""), vec![0, 1, 2]);
}

#[test]
fn status_line_lists_counts() {
    assert_eq!(status_left(true, false, 1, 2, 3, None, None), "Loading…");
    assert_eq!(status_left(false, false, 2, 5, 0, None, None), "2 folders · 5 media");
    assert_eq!(
        status_left(false, true, 2, 5, 3, Some(1), Some((4, 12))),
        "5 media · 3 selected · 1 cut · thumbs 4/12"
    );
    assert_eq!(status_left(false, true, 0, 5, 0, None, Some((12, 12))), "5 media");
    let entries = sample();
    assert_eq!(thumb_progress(&entries, 5), Some((2, 2)));
    assert_eq!(thumb_progress(&entries, 1), Some((1, 2)));
    assert_eq!(thumb_progress(&vec![folder("/f", "f")], 0), None);
}

#[test]
fn neighbor_after_removal() {
    let entries = sample();
    let vis = [0, 1, 2, 3];
    let gone = vec![path("/lib/a.jpg")];
    assert_eq!(neighbor_index(&entries, &vis, &gone, 1), Some(2));
    let all = vec![path("/lib/b.mov"), path("/lib/c.png")];
    assert_eq!(neighbor_index(&entries, &vis, &all, 2), Some(1));
}

// Search and name boxes

#[test]
fn search_box_keys() {
    let mut b = SearchBox::new();
    assert!(!b.on_key("a", Some("a"), false, 0));
    b.toggle();
    assert!(b.open);
    assert!(b.on_key("b", Some("be"), false, 3));
    assert!(b.on_key("a", Some("a"), false, 3));
    assert_eq!(b.query, "bea");
    assert!(!b.on_key("x", Some("x"), true, 3));
    assert!(!b.on_key("f1", Some("\u{1b}"), false, 3));
    assert!(b.on_key("backspace", None, false, 3));
    assert_eq!(b.query, "be");
    assert!(b.on_key("down", None, false, 3));
    assert!(b.on_key("down", None, false, 3));
    assert!(b.on_key("down", None, false, 3));
    assert_eq!(b.choice, 2);
    assert!(b.on_key("up", None, false, 3));
    assert_eq!(b.choice, 1);
    assert_eq!(b.confirm(&vec![4, 7, 9]), Some(7));
    assert!(!b.open);
    assert_eq!(b.query, "");
    b.toggle();
    assert!(b.on_key("down", None, false, 0));
    assert_eq!(b.choice, 0);
    assert_eq!(b.confirm(&vec![]), None);
}

#[test]
fn name_box_confirms_and_shows_errors() {
    let entries = sample();
    let mut b = NameBox::new();
    assert_eq!(b.confirm(false, &path("/lib"), &entries, None), NameStep::Nothing);
    b.open(NameKind::Rename(1), &entries);
    assert_eq!(b.query, "a.jpg");
    assert!(b.on_key("backspace", None, false));
    assert!(b.on_key("g", Some("g"), false));
    assert_eq!(b.query, "a.jpg");
    match b.confirm(false, &path("/lib"), &entries, Some(1)) {
        NameStep::Rename(from, name, open) => {
            assert_eq!(from, path("/lib/a.jpg"));
            assert_eq!(name, "a.jpg");
            assert!(open);
        }
        other => panic!("unexpected {other:?}"),
    }
    assert!(b.kind.is_none());
    b.open(NameKind::NewFolder, &entries);
    assert!(b.on_key("n", Some("new"), false));
    assert_eq!(
        b.confirm(false, &path("/lib"), &entries, None),
        NameStep::Create(path("/lib"), "new".to_string())
    );
    assert_eq!(b.created(Err(FsError::Collision)), None);
    assert_eq!(b.error.as_deref(), Some("That name is already taken."));
    assert!(b.kind.is_some());
    assert!(b.on_key("s", Some("s"), false));
    assert!(b.error.is_none());
    assert_eq!(b.created(Ok(path("/lib/news"))), Some(path("/lib/news")));
    assert!(b.kind.is_none());
    b.open(NameKind::NewFolder, &entries);
    assert_eq!(b.confirm(true, &path("/lib"), &entries, None), NameStep::Closed);
    b.open(NameKind::Rename(9), &entries);
    assert_eq!(b.query, "");
    assert_eq!(b.confirm(false, &path("/lib"), &entries, None), NameStep::Closed);
}

// Window decisions

#[test]
fn going_up_stays_in_the_library() {
    let root = path("/lib");
    assert_eq!(up_target(&path("/lib/a/b"), &root, false), Some(path("/lib/a")));
    assert_eq!(up_target(&path("/lib/a"), &root, false), Some(path("/lib")));
    assert_eq!(up_target(&root, &root, false), None);
    assert_eq!(up_target(&path("/lib/a"), &root, true), None);
    assert_eq!(up_target(&path("/elsewhere/x"), &root, false), None);
    assert!(crumb_opens(&path("/lib"), &path("/lib/a"), &root));
    assert!(!crumb_opens(&path("/lib/a"), &path("/lib/a"), &root));
    assert!(!crumb_opens(&path("/"), &path("/lib/a"), &root));
}

#[test]
fn escape_closes_the_innermost_thing() {
    assert_eq!(close_step(true, true, true, true), CloseStep::DismissMenu);
    assert_eq!(close_step(false, true, true, true), CloseStep::CancelCollision);
    assert_eq!(close_step(false, false, true, true), CloseStep::ForgetCut);
    assert_eq!(close_step(false, false, false, true), CloseStep::CloseLightbox);
    assert_eq!(close_step(false, false, false, false), CloseStep::Nothing);
}

#[test]
fn watcher_reloads_only_on_change() {
    assert_eq!(watch_step(None, 7, false), WatchStep::Remember(7));
    assert_eq!(watch_step(Some(7), 7, false), WatchStep::Keep);
    assert_eq!(watch_step(Some(7), 8, false), WatchStep::Reload(8));
    assert_eq!(watch_step(Some(7), 8, true), WatchStep::Keep);
}

fn dropped(p: &str, is_dir: bool) -> Dropped {
    Dropped { path: path(p), is_dir, is_file: !is_dir }
}

#[test]
fn outside_drops_import_or_open() {
    let folder = path("/lib/a");
    let root = path("/lib");
    let items = vec![dropped("/tmp/x.jpg", false), dropped("/tmp/doc.txt", false), dropped("/tmp/dir", true)];
    match external_drop(None, &items, false, false, false, &folder, &root) {
        DropPlan::Place(ps, dest, copy) => {
            assert_eq!(ps, vec![path("/tmp/x.jpg")]);
            assert_eq!(dest, folder);
            assert!(copy);
        }
        other => panic!("unexpected {other:?}"),
    }
    let one_dir = vec![dropped("/tmp/dir", true)];
    assert_eq!(
        external_drop(None, &one_dir, true, false, false, &folder, &root),
        DropPlan::OpenLibrary(path("/tmp/dir"))
    );
    assert_eq!(external_drop(None, &items, false, true, false, &folder, &root), DropPlan::Ignore);
    assert_eq!(external_drop(None, &items, true, false, false, &folder, &root), DropPlan::Ignore);
    let target = path("/lib/b");
    match external_drop(Some(&target), &items, false, false, true, &folder, &root) {
        DropPlan::Place(ps, dest, copy) => {
            assert_eq!(ps.len(), 1);
            assert_eq!(dest, target);
            assert!(!copy);
        }
        other => panic!("unexpected {other:?}"),
    }
    assert_eq!(drop_hint(&items), Some(DropHint::ImportHere));
    assert_eq!(drop_hint(&one_dir), Some(DropHint::OpenLibrary));
    assert_eq!(drop_hint(&vec![dropped("/tmp/doc.txt", false), dropped("/tmp/d", true)]), None);
    assert_eq!(drop_hint(&vec![]), None);
}

#[test]
fn tile_drops_skip_their_own_folder() {
    let paths = vec![path("/lib/a/x.jpg"), path("/lib/b/y.jpg"), path("/lib/b")];
    let (kept, copy) = tile_drop(&paths, &path("/lib/b"), false, false, true).unwrap();
    assert_eq!(kept, vec![path("/lib/a/x.jpg")]);
    assert!(copy);
    assert!(tile_drop(&paths, &path("/lib/b"), true, false, false).is_none());
}

#[test]
fn copied_paths_and_status_path() {
    let ps = vec![path("/lib/a.jpg"), path("/lib/b c.png")];
    assert_eq!(clipboard_text(&ps, &path("/lib")), "/lib/a.jpg\n/lib/b c.png");
    assert_eq!(clipboard_text(&vec![], &path("/lib")), "/lib");
    let entries = sample();
    assert_eq!(status_path(&entries, Some(1), &path("/lib")), "/lib/a.jpg");
    assert_eq!(status_path(&entries, Some(8), &path("/lib")), "/lib");
    assert_eq!(status_path(&entries, None, &path("/lib")), "/lib");
}

// File jobs

#[test]
fn paste_of_a_cut_empties_the_clipboard() {
    let folder = path("/lib/dest");
    let mut clip = Some(Clip::Cut(vec![path("/lib/a.jpg")]));
    assert!(matches!(paste(&mut clip, true, false, &folder), PasteStart::FlatMode));
    assert!(clip.is_some());
    match paste(&mut clip, false, false, &folder) {
        PasteStart::Start(job) => {
            assert!(matches!(job.kind, PendingKind::Move { ref dest_dir } if *dest_dir == folder));
            assert_eq!(job.remaining, vec![path("/lib/a.jpg")]);
            assert!(matches!(job.restore_clip, Some(Clip::Cut(_))));
        }
        other => panic!("unexpected {other:?}"),
    }
    assert!(clip.is_none());
    let mut copy = Some(Clip::Copy(vec![path("/lib/a.jpg")]));
    assert!(matches!(paste(&mut copy, false, false, &folder), PasteStart::Start(_)));
    assert!(copy.is_some());
    assert!(copy.as_ref().unwrap().paths().len() == 1);
    assert!(!copy.as_ref().unwrap().cuts(&path("/lib/a.jpg")));
    assert!(Clip::Cut(vec![path("/lib/a.jpg")]).cuts(&path("/lib/a.jpg")));
    let mut none: Option<Clip> = None;
    assert!(matches!(paste(&mut none, false, false, &folder), PasteStart::Nothing));
}

#[test]
fn job_asks_on_a_taken_name_and_finishes() {
    let folder = path("/lib");
    let dest = path("/lib/into");
    let mut job = Job::new(
        PendingKind::Move { dest_dir: dest.copied() },
        vec![path("/lib/a.jpg"), path("/lib/b.jpg"), path("/lib/c.jpg")],
        folder.copied(),
        Some(path("/lib/d.jpg")),
        false,
        Some(Clip::Cut(vec![])),
    );
    assert_eq!(job.collision(), Collision::Fail);
    let put = |from: &str, to: &str| UndoItem::PutBack { from: path(from), to: path(to) };
    assert_eq!(job.record(Ok(put("/lib/into/a.jpg", "/lib/a.jpg"))), Progress::Continue);
    assert_eq!(job.record(Err(FsError::Collision)), Progress::Ask);
    assert_eq!(job.asking, Some(path("/lib/b.jpg")));
    assert_eq!(job.asked_name(), "b.jpg");
    job.toggle_apply_all();
    assert_eq!(
        job.resolve(Ok(put("/lib/into/b 2.jpg", "/lib/b.jpg")), Collision::KeepBoth),
        Progress::Continue
    );
    assert_eq!(job.collision(), Collision::KeepBoth);
    assert_eq!(job.record(Err(FsError::Io)), Progress::Finished);
    let fin = job.finish().unwrap();
    assert_eq!(fin.message, "Moved 2 items");
    assert_eq!(fin.focus, path("/lib/d.jpg"));
    assert_eq!(fin.folder, folder);
}

#[test]
fn cancelled_question_restores_the_clipboard() {
    let mut job = Job::new(
        PendingKind::Copy { dest_dir: path("/lib") },
        vec![path("/x/a.jpg"), path("/x/b.jpg")],
        path("/lib"),
        None,
        false,
        Some(Clip::Copy(vec![])),
    );
    assert_eq!(job.record(Err(FsError::Collision)), Progress::Ask);
    let (clip, fin) = job.cancel();
    match clip {
        Some(Clip::Copy(ps)) => assert_eq!(ps, vec![path("/x/a.jpg"), path("/x/b.jpg")]),
        _ => panic!("clipboard should come back"),
    }
    assert!(fin.is_none());
}

#[test]
fn single_failure_is_reported() {
    let mut job = Job::new(PendingKind::Rename { new_name: "n.jpg".into() }, vec![path("/lib/a.jpg")], path("/lib"), None, false, None);
    assert_eq!(job.record(Err(FsError::InvalidName)), Progress::Failed(FsError::InvalidName));
    assert!(job.finish().is_none());
}

#[test]
fn rename_start_outcomes() {
    match rename_start(path("/lib/a.jpg"), "b.jpg".into(), Ok(path("/lib/b.jpg")), path("/lib"), true) {
        RenameStart::Done(UndoItem::PutBack { from, to }) => {
            assert_eq!(from, path("/lib/b.jpg"));
            assert_eq!(to, path("/lib/a.jpg"));
        }
        other => panic!("unexpected {other:?}"),
    }
    match rename_start(path("/lib/a.jpg"), "b.jpg".into(), Err(FsError::Collision), path("/lib"), true) {
        RenameStart::Ask(job) => {
            assert_eq!(job.asking, Some(path("/lib/a.jpg")));
            assert!(job.remaining.is_empty());
            assert!(job.reopen);
        }
        other => panic!("unexpected {other:?}"),
    }
    assert!(matches!(
        rename_start(path("/lib/a.jpg"), "".into(), Err(FsError::InvalidName), path("/lib"), false),
        RenameStart::Failed(FsError::InvalidName)
    ));
    assert!(matches!(
        dest_job(true, &path("/elsewhere"), vec![], &path("/lib"), &path("/lib"), None),
        Err(FsError::OutsideRoot)
    ));
    let job = dest_job(false, &path("/lib/x"), vec![path("/lib/a.jpg")], &path("/lib"), &path("/lib"), None).unwrap();
    assert!(matches!(job.kind, PendingKind::Move { .. }));
}

#[test]
fn trash_questions_and_candidates() {
    assert_eq!(trash_prompt(1, 0), None);
    assert_eq!(trash_prompt(1, 4).unwrap(), "Move this folder and 4 items inside to Trash?");
    assert_eq!(trash_prompt(3, 12).unwrap(), "Move 3 items (12 inside folders) to Trash?");
    assert_eq!(trash_prompt(2, 0).unwrap(), "Move 2 items to Trash?");
    let root = path("/lib");
    let picked = vec![path("/lib"), path("/lib/a.jpg"), path("/other/b.jpg")];
    assert_eq!(trash_candidates(&picked, &root), vec![path("/lib/a.jpg")]);
    let entries = sample();
    assert!(trash_reopens(true, &entries, &Some(path("/lib/c.png"))));
    assert!(!trash_reopens(true, &entries, &Some(path("/lib/b.mov"))));
    assert!(!trash_reopens(false, &entries, &Some(path("/lib/c.png"))));
}

#[test]
fn trashing_the_folder_on_screen_moves_up() {
    let root = path("/lib");
    let mut batch = Batch::new(BatchKind::Trash, path("/lib/a/b"), None, true);
    batch.leaving(&path("/lib/x.jpg"), &root);
    assert_eq!(batch.folder, path("/lib/a/b"));
    assert!(batch.reopen);
    batch.leaving(&path("/lib/a"), &root);
    assert_eq!(batch.folder, path("/lib"));
    assert!(!batch.reopen);
    assert_eq!(batch.record(Err(FsError::Io)), Some(FsError::Io));
    let undo = UndoItem::PutBack { from: path("/trash/a"), to: path("/lib/a") };
    assert_eq!(batch.record(Ok(undo)), None);
    assert_eq!(batch.record(Err(FsError::Io)), None);
    let fin = batch.finish().unwrap();
    assert_eq!(fin.message, "Moved 1 items to Trash");
    assert_eq!(fin.focus, path("/trash/a"));
    let mut dup = Batch::new(BatchKind::Duplicate, path("/lib"), None, false);
    assert!(dup.finish().is_none());
    dup.record(Ok(UndoItem::Trash { path: path("/lib/a copy.jpg") }));
    assert_eq!(dup.finish().unwrap().message, "Duplicated 1 items");
}

#[test]
fn undo_goes_last_first_and_stops_at_failure() {
    let items = vec![
        UndoItem::Trash { path: path("/lib/one") },
        UndoItem::PutBack { from: path("/lib/x/two"), to: path("/lib/two") },
    ];
    let mut run = UndoRun::new(items);
    assert!(matches!(run.next(), Some(UndoItem::PutBack { .. })));
    assert!(run.record(Ok(path("/lib/two"))));
    assert!(matches!(run.next(), Some(UndoItem::Trash { .. })));
    assert!(!run.record(Err(FsError::Io)));
    assert!(run.next().is_none());
    assert_eq!(run.focus(&path("/lib")), path("/lib/two"));
    assert_eq!(UndoRun::new(vec![]).focus(&path("/lib")), path("/lib"));
}

#[test]
fn first_frame_follows_the_extension() {
    let img = image::RgbaImage::from_pixel(4, 3, image::Rgba([10, 20, 30, 255]));
    let mut gif = Vec::new();
    image::DynamicImage::ImageRgba8(img)
        .write_to(&mut std::io::Cursor::new(&mut gif), image::ImageFormat::Gif)
        .unwrap();
    let jpeg = first_frame_jpeg(&gif, "GIF").expect("a frame");
    let back = image::load_from_memory(&jpeg).unwrap();
    assert_eq!((back.width(), back.height()), (4, 3));
    assert!(first_frame_jpeg(&gif, "png").is_none());
    assert!(first_frame_jpeg(&gif, "").is_none());
    let small = reencode(&jpeg_bytes(30, 60), 10).expect("re-encoded");
    let back = image::load_from_memory(&small).unwrap();
    assert_eq!((back.width(), back.height()), (5, 10));
    assert!(reencode(&[1, 2, 3], 10).is_none());
}

#[test]
fn tray_icon_is_a_grey_square() {
    let px = icon_pixels(32);
    assert_eq!(px.len(), 32 * 32 * 4);
    assert_eq!(&px[..8], &[0xe8, 0xe8, 0xe8, 0xff, 0xe8, 0xe8, 0xe8, 0xff]);
    assert!(icon_pixels(0).is_empty());
}

#[test]
fn start_folder_prefers_argument_then_recent() {
    let mut prefs = Prefs::new();
    assert_eq!(prefs.start_folder(None, path("/app/media")), path("/app/media"));
    prefs.recents.push(path("/pics"));
    assert_eq!(prefs.start_folder(None, path("/app/media")), path("/pics"));
    assert_eq!(prefs.start_folder(Some(path("/given")), path("/app/media")), path("/given"));
}

#[test]
fn thumbnails_load_for_images_only() {
    assert_eq!(image_paths(&sample()), vec![path("/lib/a.jpg"), path("/lib/c.png")]);
    assert!(image_paths(&vec![]).is_empty());
}

#[test]
fn job_targets_and_plans_each_item() {
    let root = path("/lib");
    let mv = Job::new(PendingKind::Move { dest_dir: path("/lib/b") }, vec![], path("/lib"), None, false, None);
    assert_eq!(mv.target(&path("/lib/a/x.jpg"), &root), Ok(path("/lib/b/x.jpg")));
    assert_eq!(mv.target(&path("/lib"), &root), Err(FsError::OutsideRoot));
    let facts = DestFacts { same: false, taken: |n: &str| n == "x.jpg", pid: 7 };
    let plan = mv.plan(&path("/lib/a/x.jpg"), &root, Collision::KeepBoth, &facts).unwrap();
    assert_eq!(plan.dest, path("/lib/b/x 2.jpg"));
    assert_eq!(plan.transfer, Transfer::Move);
    assert_eq!(mv.plan(&path("/lib/a/x.jpg"), &root, Collision::Fail, &facts), Err(FsError::Collision));
    let rn = Job::new(PendingKind::Rename { new_name: " y.jpg ".into() }, vec![], path("/lib"), None, false, None);
    assert_eq!(rn.target(&path("/lib/a/x.jpg"), &root), Ok(path("/lib/a/y.jpg")));
    let cp = Job::new(PendingKind::Copy { dest_dir: path("/lib/a") }, vec![], path("/lib"), None, false, None);
    let same = DestFacts { same: true, taken: |n: &str| n == "x.jpg", pid: 7 };
    let plan = cp.plan(&path("/lib/a/x.jpg"), &root, Collision::Fail, &same).unwrap();
    assert_eq!(plan.dest, path("/lib/a/x copy.jpg"));
    assert_eq!(plan.transfer, Transfer::Copy);
    assert!(!rusty_gallery::gallery::prompt::char_is_control('a'));
    assert!(rusty_gallery::gallery::prompt::char_is_control('\u{85}'));
}

#[test]
fn a_name_taken_in_another_case_blocks_a_rename() {
    // a case-insensitive volume reports Photo.JPG for photo.jpg
    let root = path("/lib");
    let probe = DestFacts { same: false, taken: |n: &str| n.eq_ignore_ascii_case("Photo.JPG"), pid: 3 };
    assert_eq!(rename_path(&path("/lib/x.jpg"), "photo.jpg", &root, &probe), Err(FsError::Collision));
    let case_sensitive = DestFacts { same: false, taken: |n: &str| n == "Photo.JPG", pid: 3 };
    assert_eq!(
        rename_path(&path("/lib/x.jpg"), "photo.jpg", &root, &case_sensitive).map(|p| p.dest),
        Ok(path("/lib/photo.jpg"))
    );
}

#[test]
fn every_file_error_has_its_cause() {
    let root = path("/lib");
    let none = DestFacts { same: false, taken: |_: &str| false, pid: 1 };
    assert_eq!(
        move_into(&path("/lib/a"), &path("/lib/a/b"), &root, Collision::Fail, &none),
        Err(FsError::Nested)
    );
    assert_eq!(
        move_into(&path("/lib/a"), &path("/other"), &root, Collision::Fail, &none),
        Err(FsError::OutsideRoot)
    );
    assert_eq!(duplicate(&path("/lib/dir"), &root, true, &|_: &str| false), Err(FsError::Io));
    assert_eq!(trash_destination(&path("/"), &path("/tmp/t"), &|_: &str| false, 1), Err(FsError::Io));
    assert_eq!(
        trash_destination(&path("/lib/a.jpg"), &path("/tmp/t"), &|n: &str| n == "a.jpg", 1),
        Ok(path("/tmp/t/a 2.jpg"))
    );
    assert_eq!(
        restore_path(&path("/lib/x/a.jpg"), &path("/lib/a.jpg"), &root, true, false),
        Err(FsError::Collision)
    );
    assert_eq!(
        restore_path(&path("/lib/x/a.jpg"), &path("/lib/a.jpg"), &root, false, false),
        Ok(path("/lib/a.jpg"))
    );
    assert_eq!(FsError::Nested.as_str(), "Can't move a folder into itself.");
    assert_eq!(FsError::Io.as_str(), "Could not update the disk.");
    assert_eq!(FsError::InvalidName.as_str(), "Use a single name, without / or \\.");
    assert_eq!(FsError::OutsideRoot.as_str(), "That stays inside this library.");
}

#[test]
fn previews_come_whenever_the_picture_decodes() {
    let img = image::DynamicImage::ImageRgb8(image::RgbImage::from_pixel(9, 3, image::Rgb([1, 2, 3])));
    let mut plain = Vec::new();
    img.write_to(&mut std::io::Cursor::new(&mut plain), image::ImageFormat::Png).unwrap();
    let tiny = match preview_jpeg(&plain, "png", 0) {
        Preview::Jpeg(b) => b,
        other => panic!("unexpected {other:?}"),
    };
    let back = image::load_from_memory(&tiny).unwrap();
    assert_eq!((back.width(), back.height()), (1, 1));
    let small = reencode(&plain, 3).expect("a preview");
    let back = image::load_from_memory(&small).unwrap();
    assert_eq!((back.width(), back.height()), (3, 1));
    // framed as one JPEG: start-of-image and a segment marker, end-of-image last
    assert_eq!(&small[..3], &[0xff, 0xd8, 0xff]);
    assert_eq!(&small[small.len() - 2..], &[0xff, 0xd9]);
    // the frame header after the JFIF segment: height 1, width 3
    assert_eq!(&small[20..22], &[0xff, 0xc0]);
    assert_eq!(&small[25..29], &[0, 1, 0, 3]);
    // the file's own picture wins over an embedded one
    let mut png = Vec::new();
    img.write_to(&mut std::io::Cursor::new(&mut png), image::ImageFormat::Png).unwrap();
    png.extend_from_slice(&jpeg_bytes(40, 40));
    match preview_jpeg(&png, "png", 6) {
        Preview::Jpeg(b) => {
            let back = image::load_from_memory(&b).unwrap();
            assert_eq!((back.width(), back.height()), (6, 2));
        }
        other => panic!("unexpected {other:?}"),
    }
    assert_eq!(settle_preview(Some(Some(vec![7])), Some(Some(vec![8]))), Preview::Jpeg(vec![7]));
    assert_eq!(settle_preview(Some(None), None), Preview::Failed);
    assert_eq!(settle_preview(None, Some(Some(vec![8]))), Preview::Jpeg(vec![8]));
    assert_eq!(settle_preview(None, Some(None)), Preview::Failed);
    assert_eq!(settle_preview(None, None), Preview::Undecodable);
    assert_eq!(written_bytes(Some(Some(vec![5]))), Some(vec![5]));
    assert_eq!(written_bytes(Some(None)), None);
    assert_eq!(written_bytes(None), None);
}

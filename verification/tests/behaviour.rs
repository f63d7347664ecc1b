use rusty_gallery::gallery::nav::{filmstrip_indices, filter_internal_drop, range_select};
use rusty_gallery::media::fs::{
    copy_into, create_folder, duplicate, import_into, move_into, rename_path, unique_copy_name,
    unique_numbered, valid_name, Collision, DestFacts, FsError, Placement, Transfer,
};
use rusty_gallery::media::ignore::{default_ignore_list, is_ignored};
use rusty_gallery::media::preview::largest_jpeg;
use rusty_gallery::path::LibPath;
use rusty_gallery::theme::{Appearance, Theme};
use rusty_gallery::viewer::ViewMode;

fn path(text: &str) -> LibPath {
    LibPath::parse(text)
}

/// A probe of a folder that holds exactly these names.
fn taken_in(list: &[&str]) -> impl Fn(&str) -> bool {
    let held: Vec<String> = list.iter().map(|s| s.to_string()).collect();
    move |name: &str| held.iter().any(|h| h == name)
}

fn facts(same: bool, siblings: &[&str]) -> DestFacts<impl Fn(&str) -> bool> {
    DestFacts { same, taken: taken_in(siblings), pid: 4242 }
}

#[test]
fn shift_range_follows_visible_order() {
    let vis = [0, 2, 5, 8];
    assert_eq!(range_select(&vis, 2, 8), vec![2, 5, 8]);
    assert_eq!(range_select(&vis, 8, 0), vec![0, 2, 5, 8]);
    assert_eq!(range_select(&vis, 5, 5), vec![5]);
}

#[test]
fn refuses_drop_into_current_parent_or_self() {
    let dest = path("/lib/album");
    let keep = path("/lib/other/a.jpg");
    let same = path("/lib/album/b.jpg");
    let nested = path("/lib/album");
    let out = filter_internal_drop(&vec![keep.copied(), same, nested], &dest);
    assert_eq!(out, vec![keep]);
}

#[test]
fn filmstrip_window_stays_near_nine() {
    let imgs: Vec<usize> = (0..20).collect();
    let strip = filmstrip_indices(&imgs, 10);
    assert_eq!(strip.len(), 9);
    assert!(strip.contains(&10));
}

#[test]
fn actual_is_distinct_from_fit() {
    assert_ne!(ViewMode::Fit, ViewMode::Actual);
    assert_ne!(ViewMode::Fill, ViewMode::Fit);
}

#[test]
fn rejects_empty_dots_and_separators() {
    assert!(!valid_name(""));
    assert!(!valid_name("   "));
    assert!(!valid_name("."));
    assert!(!valid_name(".."));
    assert!(!valid_name("a/b"));
    assert!(!valid_name("a\\b"));
    assert!(valid_name("holiday"));
    assert!(valid_name("shot 01.jpg"));
}

#[test]
fn create_folder_writes_under_root_and_rejects_collisions() {
    let root = path("/tmp/rusty-fs-create");
    let made = create_folder(&root, " album ", &root, &taken_in(&[])).unwrap();
    assert_eq!(made, root.join("album"));
    assert_eq!(
        create_folder(&root, "album", &root, &taken_in(&["album"])),
        Err(FsError::Collision)
    );
    let outside = path("/tmp/rusty-fs-outside");
    assert_eq!(
        create_folder(&outside, "nope", &root, &taken_in(&[])),
        Err(FsError::OutsideRoot)
    );
}

#[test]
fn rename_path_moves_the_file_and_blocks_taken_names() {
    let root = path("/tmp/rusty-fs-rename");
    let src = root.join("old.jpg");
    let placed = rename_path(&src, "new.jpg", &root, &facts(false, &["old.jpg", "taken.jpg"])).unwrap();
    assert_eq!(
        placed,
        Placement { dest: root.join("new.jpg"), replace: false, transfer: Transfer::Move }
    );
    let dest = placed.dest;
    assert_eq!(
        rename_path(&dest, "taken.jpg", &root, &facts(false, &["new.jpg", "taken.jpg"])),
        Err(FsError::Collision)
    );
    assert_eq!(
        rename_path(&dest, "../escape.jpg", &root, &facts(false, &["new.jpg", "taken.jpg"])),
        Err(FsError::InvalidName)
    );
}

#[test]
fn keep_both_numbers_the_copy() {
    let root = path("/tmp/rusty-fs-both");
    let numbered = unique_numbered(&root.join("shot.jpg"), &taken_in(&["shot.jpg"]), 4242);
    assert_eq!(numbered, root.join("shot 2.jpg"));
    assert_eq!(
        unique_numbered(&root.join("shot.jpg"), &taken_in(&["shot.jpg", "shot 2.jpg"]), 4242),
        root.join("shot 3.jpg")
    );
    let copy = unique_copy_name(&root.join("shot.jpg"), &taken_in(&["shot.jpg", "shot 2.jpg"]));
    assert_eq!(copy, root.join("shot copy.jpg"));
}

#[test]
fn move_and_copy_respect_collisions() {
    let root = path("/tmp/rusty-fs-relocate");
    let albums = root.join("albums");
    let src = root.join("a.jpg");
    assert_eq!(
        move_into(&src, &albums, &root, Collision::Fail, &facts(false, &["a.jpg"])),
        Err(FsError::Collision)
    );
    let kept = move_into(&src, &albums, &root, Collision::KeepBoth, &facts(false, &["a.jpg"])).unwrap();
    assert_eq!(kept.dest, albums.join("a 2.jpg"));
    assert_eq!(kept.transfer, Transfer::Move);
    let src2 = root.join("b.jpg");
    let copied = copy_into(&src2, &albums, &root, Collision::Fail, &facts(false, &["a.jpg", "a 2.jpg"])).unwrap();
    assert_eq!(copied.dest, albums.join("b.jpg"));
    assert_eq!(copied.transfer, Transfer::Copy);
}

#[test]
fn import_copies_from_outside_the_library() {
    let root = path("/tmp/rusty-fs-import-root");
    let src = path("/tmp/rusty-fs-import-src/shot.jpg");
    let dest = import_into(&src, &root, &root, Collision::Fail, true, true, &facts(false, &[])).unwrap();
    assert_eq!(dest.dest, root.join("shot.jpg"));
    assert_eq!(dest.transfer, Transfer::Copy);
    assert!(!dest.replace);
}

#[test]
fn duplicate_never_overwrites() {
    let root = path("/tmp/rusty-fs-dup");
    let src = root.join("img.jpg");
    let a = duplicate(&src, &root, false, &taken_in(&["img.jpg"])).unwrap();
    assert_eq!(a, root.join("img copy.jpg"));
    let b = duplicate(&src, &root, false, &taken_in(&["img.jpg", "img copy.jpg"])).unwrap();
    assert_eq!(b, root.join("img copy 2.jpg"));
}

#[test]
fn matches_listed_names_only() {
    let names = default_ignore_list();
    assert!(is_ignored("node_modules", &names));
    assert!(is_ignored(".GIT", &names));
    assert!(!is_ignored("photos", &names));
    assert!(is_ignored("MyCache", &["mycache".into()]));
    assert!(!is_ignored("node_modules", &[]));
}

#[test]
fn finds_the_largest_embedded_jpeg() {
    let mut blob = vec![0, 1, 2, 3];
    blob.extend_from_slice(&[0xff, 0xd8, 0xff, 0x10, 11, 0xff, 0xd9]);
    let mut bigger = vec![0xff, 0xd8, 0xff];
    bigger.extend_from_slice(&[7u8; 200]);
    bigger.extend_from_slice(&[0xff, 0xd9]);
    blob.extend_from_slice(&bigger);
    let found = largest_jpeg(&blob).unwrap();
    assert_eq!(found.len(), bigger.len());
}

#[test]
fn skips_tiny_jpeg_noise() {
    let blob = [0xff, 0xd8, 0xff, 1, 0xff, 0xd9];
    assert!(largest_jpeg(&blob).is_none());
}

#[test]
fn resolve_follows_pref_then_system() {
    assert_eq!(Theme::resolve("light", Appearance::Dark).bg, Theme::light().bg);
    assert_eq!(Theme::resolve("system", Appearance::Light).bg, Theme::light().bg);
    assert_eq!(Theme::resolve("system", Appearance::Dark).bg, Theme::dark().bg);
    assert_eq!(Theme::resolve("dark", Appearance::Light).bg, Theme::dark().bg);
}

//! Media kinds, listing entries, and what a path's name says about it.

use vstd::prelude::*;

use crate::path::{ext_of, file_name_of, split_name, LibPath};
use crate::text::{eq_ignore_ascii_case, eq_ignore_case};

verus! {

pub open spec fn image_exts() -> Seq<&'static str> {
    seq![
        "jpg", "jpeg", "png", "gif", "webp", "bmp", "tif", "tiff", "heic", "heif", "avif", "jxl",
        "cr2", "cr3", "nef", "arw", "dng", "raf", "orf", "rw2", "raw",
    ]
}

pub open spec fn video_exts() -> Seq<&'static str> {
    seq!["mp4", "mov", "mkv", "webm", "avi", "m4v"]
}

pub open spec fn heic_exts() -> Seq<&'static str> {
    seq!["heic", "heif"]
}

pub open spec fn raw_exts() -> Seq<&'static str> {
    seq!["cr2", "cr3", "nef", "arw", "dng", "raf", "orf", "rw2", "raw"]
}

pub open spec fn jxl_exts() -> Seq<&'static str> {
    seq!["jxl"]
}

/// Extensions of stills the gallery shows.
pub fn image_ext_list() -> (r: Vec<&'static str>)
    ensures
        r@ == image_exts(),
{
    let r = vec![
        "jpg", "jpeg", "png", "gif", "webp", "bmp", "tif", "tiff", "heic", "heif", "avif", "jxl",
        "cr2", "cr3", "nef", "arw", "dng", "raf", "orf", "rw2", "raw",
    ];
    assert(r@ =~= image_exts());
    r
}

/// Extensions of videos the gallery lists.
pub fn video_ext_list() -> (r: Vec<&'static str>)
    ensures
        r@ == video_exts(),
{
    let r = vec!["mp4", "mov", "mkv", "webm", "avi", "m4v"];
    assert(r@ =~= video_exts());
    r
}

/// HEIC and HEIF stills.
pub fn heic_ext_list() -> (r: Vec<&'static str>)
    ensures
        r@ == heic_exts(),
{
    let r = vec!["heic", "heif"];
    assert(r@ =~= heic_exts());
    r
}

/// Camera RAW formats.
pub fn raw_ext_list() -> (r: Vec<&'static str>)
    ensures
        r@ == raw_exts(),
{
    let r = vec!["cr2", "cr3", "nef", "arw", "dng", "raf", "orf", "rw2", "raw"];
    assert(r@ =~= raw_exts());
    r
}

/// JPEG XL stills.
pub fn jxl_ext_list() -> (r: Vec<&'static str>)
    ensures
        r@ == jxl_exts(),
{
    let r = vec!["jxl"];
    assert(r@ =~= jxl_exts());
    r
}

/// `ext` equals one of `exts`, ignoring ASCII case.
pub open spec fn listed(ext: Seq<char>, exts: Seq<&'static str>) -> bool {
    exists|i: int| 0 <= i < exts.len() && eq_ignore_case(ext, #[trigger] exts[i]@)
}

/// The extension of the path's file name, if it has one.
pub open spec fn path_ext(p: Seq<Seq<char>>) -> Option<Seq<char>> {
    match file_name_of(p) {
        Some(n) => ext_of(n),
        None => None,
    }
}

/// The path's extension is one of `exts`, ignoring ASCII case.
pub open spec fn has_ext(p: Seq<Seq<char>>, exts: Seq<&'static str>) -> bool {
    match path_ext(p) {
        Some(e) => listed(e, exts),
        None => false,
    }
}

pub fn in_list(ext: &str, exts: &Vec<&'static str>) -> (r: bool)
    ensures
        r == listed(ext@, exts@),
{
    let mut i: usize = 0;
    while i < exts.len()
        invariant
            i <= exts.len(),
            forall|k: int| 0 <= k < i ==> !eq_ignore_case(ext@, #[trigger] exts@[k]@),
        decreases exts.len() - i,
    {
        if eq_ignore_ascii_case(ext, exts[i]) {
            return true;
        }
        i = i + 1;
    }
    false
}

/// The extension of the path's file name.
pub fn extension(path: &LibPath) -> (r: Option<String>)
    ensures
        r matches Some(e) ==> path_ext(path@) == Some(e@),
        r is None ==> path_ext(path@) is None,
{
    match path.file_name() {
        Some(name) => split_name(name.as_str()).1,
        None => None,
    }
}

/// Whether the path's extension is one of `exts`, ignoring ASCII case.
pub fn ext_is(path: &LibPath, exts: &Vec<&'static str>) -> (r: bool)
    ensures
        r == has_ext(path@, exts@),
{
    match extension(path) {
        Some(e) => in_list(e.as_str(), exts),
        None => false,
    }
}

#[derive(Clone, Copy, PartialEq, Eq, Structural, Debug)]
pub enum MediaKind {
    Image,
    Video,
}

/// Which kind of media the path's extension names, if any.
pub open spec fn kind_of(p: Seq<Seq<char>>) -> Option<MediaKind> {
    if has_ext(p, image_exts()) {
        Some(MediaKind::Image)
    } else if has_ext(p, video_exts()) {
        Some(MediaKind::Video)
    } else {
        None
    }
}

/// Dot files: the file name starts with `.`.
pub open spec fn hidden(p: Seq<Seq<char>>) -> bool {
    match file_name_of(p) {
        Some(n) => n.len() > 0 && n[0] == '.',
        None => false,
    }
}

pub fn media_kind(path: &LibPath) -> (r: Option<MediaKind>)
    ensures
        r == kind_of(path@),
{
    if ext_is(path, &image_ext_list()) {
        Some(MediaKind::Image)
    } else if ext_is(path, &video_ext_list()) {
        Some(MediaKind::Video)
    } else {
        None
    }
}

pub fn is_media_path(path: &LibPath) -> (r: bool)
    ensures
        r == (kind_of(path@) is Some),
{
    media_kind(path).is_some()
}

pub fn is_hidden(path: &LibPath) -> (r: bool)
    ensures
        r == hidden(path@),
{
    match path.file_name() {
        Some(n) => n.as_str().unicode_len() > 0 && n.as_str().get_char(0) == '.',
        None => false,
    }
}

pub struct MediaItem {
    pub path: LibPath,
    pub name: String,
    pub kind: MediaKind,
    pub modified: u64,
    pub size: u64,
}

pub struct FolderItem {
    pub path: LibPath,
    pub name: String,
    pub media_count: usize,
    pub modified: u64,
}

pub enum Entry {
    Folder(FolderItem),
    Media(MediaItem),
}

impl Entry {
    pub open spec fn spec_name(&self) -> Seq<char> {
        match self {
            Entry::Folder(f) => f.name@,
            Entry::Media(m) => m.name@,
        }
    }

    pub open spec fn spec_modified(&self) -> u64 {
        match self {
            Entry::Folder(f) => f.modified,
            Entry::Media(m) => m.modified,
        }
    }

    pub open spec fn spec_size(&self) -> u64 {
        match self {
            Entry::Folder(f) => f.media_count as u64,
            Entry::Media(m) => m.size,
        }
    }

    /// Folders, then stills, then videos.
    pub open spec fn spec_type_key(&self) -> u8 {
        match self {
            Entry::Folder(_) => 0,
            Entry::Media(m) => if m.kind == MediaKind::Image {
                1
            } else {
                2
            },
        }
    }

    pub open spec fn spec_path(&self) -> Seq<Seq<char>> {
        match self {
            Entry::Folder(f) => f.path@,
            Entry::Media(m) => m.path@,
        }
    }

    pub open spec fn is_image(&self) -> bool {
        self matches Entry::Media(m) && m.kind == MediaKind::Image
    }

    pub open spec fn is_video(&self) -> bool {
        self matches Entry::Media(m) && m.kind == MediaKind::Video
    }

    pub fn name(&self) -> (r: &String)
        ensures
            r@ == self.spec_name(),
    {
        match self {
            Entry::Folder(f) => &f.name,
            Entry::Media(m) => &m.name,
        }
    }

    pub fn modified(&self) -> (r: u64)
        ensures
            r == self.spec_modified(),
    {
        match self {
            Entry::Folder(f) => f.modified,
            Entry::Media(m) => m.modified,
        }
    }

    pub fn size(&self) -> (r: u64)
        ensures
            r == self.spec_size(),
    {
        match self {
            Entry::Folder(f) => f.media_count as u64,
            Entry::Media(m) => m.size,
        }
    }

    pub fn type_key(&self) -> (r: u8)
        ensures
            r == self.spec_type_key(),
    {
        match self {
            Entry::Folder(_) => 0,
            Entry::Media(m) => if m.kind == MediaKind::Image {
                1
            } else {
                2
            },
        }
    }

    pub fn path(&self) -> (r: &LibPath)
        ensures
            r@ == self.spec_path(),
    {
        match self {
            Entry::Folder(f) => &f.path,
            Entry::Media(m) => &m.path,
        }
    }

    pub fn is_folder(&self) -> (r: bool)
        ensures
            r == (self is Folder),
    {
        match self {
            Entry::Folder(_) => true,
            Entry::Media(_) => false,
        }
    }

    pub fn is_image_entry(&self) -> (r: bool)
        ensures
            r == self.is_image(),
    {
        match self {
            Entry::Folder(_) => false,
            Entry::Media(m) => m.kind == MediaKind::Image,
        }
    }

    pub fn is_video_entry(&self) -> (r: bool)
        ensures
            r == self.is_video(),
    {
        match self {
            Entry::Folder(_) => false,
            Entry::Media(m) => m.kind == MediaKind::Video,
        }
    }
}

} // verus!

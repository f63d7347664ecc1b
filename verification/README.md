# rusty gallery

A photo and video gallery for folders on disk: browse a library folder by
folder or as one flat grid, open images in a lightbox, and move, copy,
rename, duplicate and trash files with undo.

`src/` is the library, verified with Verus: paths as components, the
preferences file, the listings and their order, previews pulled out of RAW
files, the rules for names and collisions of every file operation, and the
decisions of the gallery window (focus, selection, search, dialogs, drops,
jobs over several items). Each public function states what it returns;
the `law_*` proof functions state what holds across functions, such as
that a stored path or preferences file reads back as written, or that
restoring undoes a move.

`app/` is the program around it: the GPUI window, the disk, the thumbnail
cache and the macOS status item. It asks the library every decision and
carries out what it decides.

`tests/` exercises the library on concrete values.

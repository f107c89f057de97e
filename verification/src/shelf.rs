//! The file shelf: what the panel shows of a dropped file.

use vstd::prelude::*;

use crate::dev::paths::{file_name, file_name_spec};
use crate::text::{chars_eq, chars_of, lowercase, owned, rfind, rfind_char, string_of, to_lowercase};

verus! {

/// The extensions shown as thumbnails.
pub open spec fn image_extensions() -> Seq<Seq<char>> {
    seq!["png"@, "jpg"@, "jpeg"@, "gif"@, "webp"@, "bmp"@, "heic"@, "avif"@, "svg"@]
}

/// The extension of a file name (`Path::extension`): what follows its last
/// `.`, unless the name has no `.` or only a leading one.
pub open spec fn extension_of(name: Seq<char>) -> Option<Seq<char>> {
    match rfind(name, '.') {
        Some(k) => if k == 0 {
            None
        } else {
            Some(name.subrange(k + 1, name.len() as int))
        },
        None => None,
    }
}

/// A path's extension, lower-cased; empty when it has none.
pub open spec fn extension_spec(path: Seq<char>, on_windows: bool) -> Seq<char> {
    match file_name_spec(path, on_windows) {
        Some(n) => match extension_of(n) {
            Some(e) => lowercase(e),
            None => Seq::empty(),
        },
        None => Seq::empty(),
    }
}

/// A dropped file, as the panel shows it.
pub struct FileMeta {
    pub path: String,
    pub name: String,
    pub extension: String,
    pub size: u64,
    pub is_dir: bool,
    pub is_image: bool,
}

pub fn is_image_extension(ext: &str) -> (r: bool)
    ensures
        r == image_extensions().contains(ext@),
{
    let e = chars_of(ext);
    let names: [&str; 9] = ["png", "jpg", "jpeg", "gif", "webp", "bmp", "heic", "avif", "svg"];
    let ghost all = image_extensions();
    assert(names@.map_values(|n: &str| n@) =~= all);
    let mut i: usize = 0;
    while i < 9
        invariant
            i <= 9,
            e@ == ext@,
            all == image_extensions(),
            names@.map_values(|n: &str| n@) == all,
            forall|k: int| 0 <= k < i ==> all[k] != ext@,
        decreases 9 - i,
    {
        assert(names@[i as int]@ == all[i as int]);
        if chars_eq(e.as_slice(), chars_of(names[i]).as_slice()) {
            return true;
        }
        i = i + 1;
    }
    false
}

/// Describes a dropped path that exists: its name (the path itself when it
/// has no last component), its extension, its size and kind; only a regular
/// file with an image extension is an image. `on_windows` says how the
/// path is read.
pub fn file_meta(path: String, is_file: bool, is_dir: bool, size: u64, on_windows: bool) -> (r: FileMeta)
    ensures
        r.path@ == path@,
        r.name@ == match file_name_spec(path@, on_windows) {
            Some(n) => n,
            None => path@,
        },
        r.extension@ == extension_spec(path@, on_windows),
        r.size == size,
        r.is_dir == is_dir,
        r.is_image == (is_file && image_extensions().contains(extension_spec(path@, on_windows))),
{
    let name = file_name(path.as_str(), on_windows);
    let extension: String = match &name {
        Some(n) => {
            let chars = chars_of(n.as_str());
            match rfind_char(chars.as_slice(), '.') {
                Some(k) => if k == 0 {
                    String::new()
                } else {
                    let tail = vstd::slice::slice_to_vec(&chars[k + 1..chars.len()]);
                    to_lowercase(string_of(tail.as_slice()).as_str())
                },
                None => String::new(),
            }
        },
        None => String::new(),
    };
    let is_image = is_file && is_image_extension(extension.as_str());
    let name = match name {
        Some(n) => n,
        None => owned(path.as_str()),
    };
    FileMeta { path, name, extension, size, is_dir, is_image }
}

} // verus!

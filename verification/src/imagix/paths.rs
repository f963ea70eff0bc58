//! Where a thumbnail goes, and which files are pictures.
//!
//! A path is a text whose folders are parted by `/`, and by nothing else: a
//! backslash is a character of a name like any other.  What stands behind
//! the last `/` is the file name, unless it is empty, `.` or `..`, which
//! name no file.  The thumbnail of `photos/cat.jpg` is `photos/tmp/cat.png`:
//! the folder `tmp` beside the picture, the picture's name up to its last
//! dot, and `.png`.
use vstd::prelude::*;
use vstd::string::StringExecFns;
use crate::text::{chars_of, find_last, last_index_of, lemma_last_index_of, same_text, substring, tail_of};

verus! {

/// The path up to and including its last `/`; empty where it has none.
pub open spec fn folder_prefix(path: Seq<char>) -> Seq<char> {
    path.take(last_index_of(path, '/') + 1)
}

/// What stands behind the last `/` of the path.
pub open spec fn file_name(path: Seq<char>) -> Seq<char> {
    path.skip(last_index_of(path, '/') + 1)
}

/// `name` names a file: it is not empty, and it is neither `.` nor `..`.
pub open spec fn names_a_file(name: Seq<char>) -> bool {
    name.len() > 0 && name != seq!['.'] && name != seq!['.', '.']
}

/// The path ends in the name of a file.
pub open spec fn has_file_name(path: Seq<char>) -> bool {
    names_a_file(file_name(path))
}

/// Where the extension of the file name `name` starts: behind its last dot,
/// unless `name` has no dot or only the one it begins with.
pub open spec fn has_extension(name: Seq<char>) -> bool {
    last_index_of(name, '.') > 0
}

/// The file name without its extension.
pub open spec fn file_stem(name: Seq<char>) -> Seq<char> {
    if has_extension(name) {
        name.take(last_index_of(name, '.'))
    } else {
        name
    }
}

/// The extension of the file name, without the dot.
pub open spec fn extension(name: Seq<char>) -> Option<Seq<char>> {
    if has_extension(name) {
        Some(name.skip(last_index_of(name, '.') + 1))
    } else {
        None
    }
}

/// The path names a picture: its extension is `jpg` or `png`, in small or
/// in capital letters throughout.
pub open spec fn is_image_file(path: Seq<char>) -> bool {
    match extension(file_name(path)) {
        Some(ext) => ext == "JPG"@ || ext == "jpg"@ || ext == "PNG"@ || ext == "png"@,
        None => false,
    }
}

/// The folder that takes the thumbnail of the picture at `path`.
pub open spec fn thumbnail_folder(path: Seq<char>) -> Seq<char> {
    folder_prefix(path) + "tmp/"@
}

/// The path of the thumbnail of the picture at `path`.
pub open spec fn thumbnail_path(path: Seq<char>) -> Seq<char> {
    thumbnail_folder(path) + file_stem(file_name(path)) + ".png"@
}

/// The pictures among `paths`, in their order.
pub open spec fn image_files(paths: Seq<Seq<char>>) -> Seq<Seq<char>> {
    paths.filter(|path: Seq<char>| is_image_file(path))
}

/// Whatever [`image_files`] keeps is a picture.
pub proof fn lemma_image_files_are_images(paths: Seq<Seq<char>>, i: int)
    requires
        0 <= i < image_files(paths).len(),
    ensures
        is_image_file(image_files(paths)[i]),
{
    paths.lemma_filter_pred(|path: Seq<char>| is_image_file(path), i);
}

/// A picture's path has a file name.
pub proof fn lemma_image_file_has_name(path: Seq<char>)
    requires
        is_image_file(path),
    ensures
        has_file_name(path),
{
    let name = file_name(path);
    lemma_last_index_of(name, '.');
    reveal_strlit("JPG");
    reveal_strlit("jpg");
    reveal_strlit("PNG");
    reveal_strlit("png");
    assert(extension(name)->0.len() == 3);
    assert(name.len() >= 5);
}

/// The file name of `path`, as characters.
fn name_of(path: &str) -> (r: (Vec<char>, usize))
    ensures
        r.0@ == path@,
        r.1 == last_index_of(path@, '/') + 1,
        r.1 <= path@.len(),
{
    let chars = chars_of(path);
    proof {
        lemma_last_index_of(chars@, '/');
    }
    let start = match find_last(&chars, '/') {
        Some(i) => {
            assert(i < chars.len());
            i + 1
        },
        None => 0,
    };
    (chars, start)
}

/// Whether `path` names a picture.
pub fn is_image(path: &str) -> (r: bool)
    ensures
        r == is_image_file(path@),
{
    let (chars, start) = name_of(path);
    let name = tail_of(&chars, start);
    proof {
        lemma_last_index_of(name@, '.');
    }
    match find_last(&name, '.') {
        Some(dot) => {
            if dot == 0 {
                return false;
            }
            let ext = substring(&name, dot + 1, name.len());
            assert(ext@ == name@.skip(dot + 1));
            same_text(ext.as_str(), "JPG") || same_text(ext.as_str(), "jpg") || same_text(
                ext.as_str(),
                "PNG",
            ) || same_text(ext.as_str(), "png")
        },
        None => false,
    }
}

/// The folder and the path of the thumbnail of the picture at `path`;
/// `None` where `path` has no file name.
pub fn thumbnail_of(path: &str) -> (r: Option<(String, String)>)
    ensures
        match r {
            Some((folder, target)) => {
                &&& has_file_name(path@)
                &&& folder@ == thumbnail_folder(path@)
                &&& target@ == thumbnail_path(path@)
            },
            None => !has_file_name(path@),
        },
{
    let (chars, start) = name_of(path);
    let name = tail_of(&chars, start);
    if name.len() == 0 {
        return None;
    }
    if name[0] == '.' && (name.len() == 1 || (name.len() == 2 && name[1] == '.')) {
        assert(name@ =~= seq!['.'] || name@ =~= seq!['.', '.']);
        return None;
    }
    assert(name@ != seq!['.'] && name@ != seq!['.', '.']) by {
        if name@ == seq!['.'] || name@ == seq!['.', '.'] {
            assert(seq!['.'][0] == '.' && seq!['.', '.'][0] == '.' && seq!['.', '.'][1] == '.');
        }
    }
    proof {
        lemma_last_index_of(name@, '.');
    }
    let stem_end = match find_last(&name, '.') {
        Some(dot) => if dot > 0 {
            dot
        } else {
            name.len()
        },
        None => name.len(),
    };
    let stem = substring(&name, 0, stem_end);
    assert(stem@ =~= file_stem(file_name(path@)));
    let mut folder = substring(&chars, 0, start);
    assert(folder@ =~= folder_prefix(path@));
    folder.append("tmp/");
    let mut target = folder.clone();
    target.append(stem.as_str());
    target.append(".png");
    Some((folder, target))
}

} // verus!

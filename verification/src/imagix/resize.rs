//! Sizes, modes, and the jobs that a resize request comes to.
//!
//! Reading folders and files is left to the caller: a request is turned into
//! the list of jobs to carry out, and a decoded picture into its thumbnail.
use vstd::prelude::*;
use vstd::string::StringExecFns;
use crate::imagix::error::ImagixError;
use crate::imagix::paths::{
    has_file_name, image_files, is_image, lemma_image_file_has_name, lemma_image_files_are_images,
    thumbnail_folder, thumbnail_of, thumbnail_path,
};
use crate::text::{same_text, texts};

verus! {

/// A decoded picture of the `image` crate.
#[verifier::external_type_specification]
#[verifier::external_body]
pub struct ExDynamicImage(image::DynamicImage);

/// The largest side, in pixels, that a thumbnail is scaled to.
pub const MAX_SIDE: u32 = 800;

/// The three thumbnail sizes on offer.
#[derive(Debug, Clone, Copy, PartialEq, Eq, Structural)]
pub enum SizeOption {
    Small,
    Medium,
    Large,
}

/// Whether one file is resized or every picture of a folder.
#[derive(Debug, Clone, Copy, PartialEq, Eq, Structural)]
pub enum Mode {
    Single,
    All,
}

/// The size that the word `s` asks for: `Small` unless it is `medium` or
/// `large`.
pub open spec fn size_named(s: Seq<char>) -> SizeOption {
    if s == "medium"@ {
        SizeOption::Medium
    } else if s == "large"@ {
        SizeOption::Large
    } else {
        SizeOption::Small
    }
}

/// The mode that the word `s` asks for, if it is `single` or `all`.
pub open spec fn mode_named(s: Seq<char>) -> Option<Mode> {
    if s == "single"@ {
        Some(Mode::Single)
    } else if s == "all"@ {
        Some(Mode::All)
    } else {
        None
    }
}

impl SizeOption {
    /// The side of the square, in pixels, that a thumbnail of this size fits.
    pub open spec fn spec_pixels(self) -> u32 {
        match self {
            SizeOption::Small => 200,
            SizeOption::Medium => 400,
            SizeOption::Large => 800,
        }
    }

    /// The side of the square, in pixels, that a thumbnail of this size fits.
    #[verifier::when_used_as_spec(spec_pixels)]
    pub fn pixels(self) -> (r: u32)
        ensures
            r == self.spec_pixels(),
            r <= MAX_SIDE,
    {
        match self {
            SizeOption::Small => 200,
            SizeOption::Medium => 400,
            SizeOption::Large => 800,
        }
    }

    /// Reads a size from its name.  Any word is taken: one that names no
    /// size stands for `Small`.
    pub fn from_str(s: &str) -> (r: Result<SizeOption, ImagixError>)
        ensures
            r matches Ok(size) && size == size_named(s@),
    {
        if same_text(s, "medium") {
            Ok(SizeOption::Medium)
        } else if same_text(s, "large") {
            Ok(SizeOption::Large)
        } else {
            Ok(SizeOption::Small)
        }
    }
}

impl Mode {
    /// Reads a mode from its name; any other word is the user's mistake.
    pub fn from_str(s: &str) -> (r: Result<Mode, ImagixError>)
        ensures
            match mode_named(s@) {
                Some(mode) => r matches Ok(m) && m == mode,
                None => r matches Err(ImagixError::UserInputError(msg)) && msg@
                    == "Wrong value for mode."@,
            },
    {
        if same_text(s, "single") {
            Ok(Mode::Single)
        } else if same_text(s, "all") {
            Ok(Mode::All)
        } else {
            Err(ImagixError::UserInputError("Wrong value for mode.".to_owned()))
        }
    }
}

impl std::str::FromStr for SizeOption {
    type Err = ImagixError;

    /// What `parse` calls: the inherent [`SizeOption::from_str`].
    fn from_str(s: &str) -> (r: Result<Self, Self::Err>)
        ensures
            r matches Ok(size) && size == size_named(s@),
    {
        SizeOption::from_str(s)
    }
}

impl std::str::FromStr for Mode {
    type Err = ImagixError;

    /// What `parse` calls: the inherent [`Mode::from_str`].
    fn from_str(s: &str) -> (r: Result<Self, Self::Err>)
        ensures
            match mode_named(s@) {
                Some(mode) => r matches Ok(m) && m == mode,
                None => r matches Err(ImagixError::UserInputError(msg)) && msg@
                    == "Wrong value for mode."@,
            },
    {
        Mode::from_str(s)
    }
}

/// One picture to resize: where it is, where its thumbnail goes, and the
/// side in pixels of the square that the thumbnail fits.
#[derive(Debug, Clone, PartialEq, Eq)]
pub struct ResizeJob {
    pub source: String,
    pub folder: String,
    pub target: String,
    pub size: u32,
}

impl ResizeJob {
    /// This is the job for the picture at `path` and the side `size`.
    pub open spec fn is_for(&self, path: Seq<char>, size: u32) -> bool {
        &&& self.source@ == path
        &&& self.folder@ == thumbnail_folder(path)
        &&& self.target@ == thumbnail_path(path)
        &&& self.size == size
    }
}

/// `jobs` holds one job for each of `paths`, in their order.
pub open spec fn jobs_for(jobs: Seq<ResizeJob>, paths: Seq<Seq<char>>, size: u32) -> bool {
    &&& jobs.len() == paths.len()
    &&& forall|i: int| 0 <= i < jobs.len() ==> (#[trigger] jobs[i]).is_for(paths[i], size)
}

/// The pictures among the `entries` of a folder, in their order.
pub fn get_image_files(entries: &Vec<String>) -> (files: Vec<String>)
    ensures
        texts(files@) == image_files(texts(entries@)),
{
    let mut files: Vec<String> = Vec::new();
    let ghost all = texts(entries@);
    proof {
        reveal(Seq::filter);
        assert(all.take(0) =~= Seq::<Seq<char>>::empty());
        assert(texts(files@) =~= image_files(all.take(0)));
    }
    let mut i: usize = 0;
    while i < entries.len()
        invariant
            i <= entries.len(),
            all == texts(entries@),
            texts(files@) == image_files(all.take(i as int)),
        decreases entries.len() - i,
    {
        let ghost before = texts(files@);
        let entry = &entries[i];
        proof {
            reveal(Seq::filter);
            assert(all.take(i + 1).drop_last() =~= all.take(i as int));
            assert(all.take(i + 1).last() == entry@);
        }
        if is_image(entry.as_str()) {
            files.push(entry.clone());
            assert(texts(files@) =~= before.push(entry@));
        }
        i += 1;
    }
    assert(all.take(i as int) =~= all);
    files
}

/// The job for the picture at `path`; `None` where `path` has no file name.
pub fn job_for(path: &str, size: u32) -> (r: Option<ResizeJob>)
    ensures
        match r {
            Some(job) => has_file_name(path@) && job.is_for(path@, size),
            None => !has_file_name(path@),
        },
{
    match thumbnail_of(path) {
        Some((folder, target)) => Some(ResizeJob { source: path.to_owned(), folder, target, size }),
        None => None,
    }
}

/// The paths that a listing of a folder came to: none where it failed.
pub open spec fn listed(listing: Result<Vec<String>, ImagixError>) -> Seq<Seq<char>> {
    match listing {
        Ok(entries) => texts(entries@),
        Err(_) => Seq::empty(),
    }
}

/// Turns a request into the jobs to carry out, in their order.
///
/// In mode `Single`, `src_folder` is the picture itself; it must have a file
/// name.  In mode `All`, `listing` is what listing the folder came to: each
/// picture among its paths gets a job, and a listing that failed gives no
/// job and no error.
pub fn process_resize_request(
    size: SizeOption,
    mode: Mode,
    src_folder: &str,
    listing: &Result<Vec<String>, ImagixError>,
) -> (r: Result<Vec<ResizeJob>, ImagixError>)
    ensures
        match mode {
            Mode::Single => if has_file_name(src_folder@) {
                r matches Ok(jobs) && jobs_for(jobs@, seq![src_folder@], size.pixels())
            } else {
                r matches Err(ImagixError::UserInputError(msg)) && msg@ == "No file name."@
            },
            Mode::All => r matches Ok(jobs) && jobs_for(
                jobs@,
                image_files(listed(*listing)),
                size.pixels(),
            ),
        },
{
    let side = size.pixels();
    match mode {
        Mode::All => Ok(resize_all(side, listing)),
        Mode::Single => resize_single(side, src_folder),
    }
}

/// The one job of a request for the single picture at `path`.
pub fn resize_single(size: u32, path: &str) -> (r: Result<Vec<ResizeJob>, ImagixError>)
    ensures
        if has_file_name(path@) {
            r matches Ok(jobs) && jobs_for(jobs@, seq![path@], size)
        } else {
            r matches Err(ImagixError::UserInputError(msg)) && msg@ == "No file name."@
        },
{
    match job_for(path, size) {
        Some(job) => {
            let mut jobs: Vec<ResizeJob> = Vec::new();
            jobs.push(job);
            Ok(jobs)
        },
        None => Err(ImagixError::UserInputError("No file name.".to_owned())),
    }
}

/// The jobs of a request for every picture of a folder, where `listing` is
/// what listing the folder came to.  A listing that failed gives no job.
pub fn resize_all(size: u32, listing: &Result<Vec<String>, ImagixError>) -> (jobs: Vec<ResizeJob>)
    ensures
        jobs_for(jobs@, image_files(listed(*listing)), size),
{
    let mut jobs: Vec<ResizeJob> = Vec::new();
    let ghost paths = image_files(listed(*listing));
    let entries = match listing {
        Ok(entries) => entries,
        Err(_) => {
            proof {
                reveal(Seq::filter);
            }
            return jobs;
        },
    };
    let files = get_image_files(entries);
    let mut i: usize = 0;
    while i < files.len()
        invariant
            i <= files.len(),
            texts(files@) == paths,
            paths == image_files(texts(entries@)),
            jobs_for(jobs@, paths.take(i as int), size),
        decreases files.len() - i,
    {
        let file = &files[i];
        proof {
            assert(paths[i as int] == file@);
            lemma_image_files_are_images(texts(entries@), i as int);
            lemma_image_file_has_name(file@);
        }
        if let Some(job) = job_for(file.as_str(), size) {
            jobs.push(job);
        }
        i += 1;
    }
    assert(paths.take(i as int) =~= paths);
    jobs
}

/// What `DynamicImage::width` gives for `img`: its width in pixels.
pub uninterp spec fn picture_width(img: image::DynamicImage) -> nat;

/// What `DynamicImage::height` gives for `img`: its height in pixels.
pub uninterp spec fn picture_height(img: image::DynamicImage) -> nat;

/// A picture of `width` by `height` pixels can be scaled to a square of
/// `size` pixels a side: the square is neither empty nor over the largest
/// size on offer, and no side of the picture is over a hundred times the
/// side of the square, which keeps every sum of samples in range.
pub open spec fn scalable(width: nat, height: nat, size: u32) -> bool {
    1 <= size <= MAX_SIDE && width <= 100 * size && height <= 100 * size
}

/// The larger of `a` and `b`.
pub open spec fn larger(a: nat, b: nat) -> nat {
    if a >= b {
        a
    } else {
        b
    }
}

/// A thumbnail of `width` by `height` pixels is the largest scaling of a
/// picture of `source_width` by `source_height` pixels that fits a square of
/// `size` pixels a side.
///
/// No side is under one pixel or over `size`.  Unless the source is empty,
/// one side is exactly `size`.  Unless a side is down to one pixel, the
/// sides keep the proportion of the source, as far as whole pixels can: each
/// is within half a pixel of its exact length.
pub open spec fn is_thumbnail_size(
    width: nat,
    height: nat,
    source_width: nat,
    source_height: nat,
    size: u32,
) -> bool {
    &&& 1 <= width <= size
    &&& 1 <= height <= size
    &&& source_width >= 1 && source_height >= 1 ==> width == size || height == size
    &&& width == 1 || height == 1 || {
        let skew = height * source_width - width * source_height;
        -larger(source_width, source_height) <= skew <= larger(source_width, source_height)
    }
}

/// `GenericImageView::dimensions` of the `image` crate, on a
/// `DynamicImage`: the width and the height of the picture, which are the
/// same numbers that `width` and `height` give.
#[verifier::external_body]
fn dimensions(img: &image::DynamicImage) -> (r: (u32, u32))
    ensures
        r.0 == picture_width(*img),
        r.1 == picture_height(*img),
{
    image::GenericImageView::dimensions(img)
}

/// `DynamicImage::thumbnail` of the `image` crate, with `size` for both
/// bounds: a new picture, scaled to the largest size that fits the square.
///
/// What is claimed is the size of the new picture, as the crate computes it
/// before it scales: both sides from one ratio, each rounded to the nearest
/// pixel and raised to one where it rounds to none, so that the side that
/// limits the scaling lands on `size`.  Nothing is claimed of the pixels.
/// The crate averages blocks of the source in 32-bit sums; what is required
/// keeps each block small enough for them, and the new picture small enough
/// to allocate.
#[verifier::external_body]
fn thumbnail(img: &image::DynamicImage, size: u32) -> (r: image::DynamicImage)
    requires
        scalable(picture_width(*img), picture_height(*img), size),
    ensures
        is_thumbnail_size(
            picture_width(r),
            picture_height(r),
            picture_width(*img),
            picture_height(*img),
            size,
        ),
{
    img.thumbnail(size, size)
}

/// The width and the height of `img`, in pixels.
pub fn picture_sides(img: &image::DynamicImage) -> (r: (u32, u32))
    ensures
        r.0 == picture_width(*img),
        r.1 == picture_height(*img),
{
    dimensions(img)
}

/// The thumbnail of `img` for a square of `size` pixels a side: the largest
/// scaling of `img` that fits the square.
pub fn resize_image(size: u32, img: &image::DynamicImage) -> (r: image::DynamicImage)
    requires
        scalable(picture_width(*img), picture_height(*img), size),
    ensures
        is_thumbnail_size(
            picture_width(r),
            picture_height(r),
            picture_width(*img),
            picture_height(*img),
            size,
        ),
{
    thumbnail(img, size)
}

/// The thumbnail of `img` for a square of `size` pixels a side, where `img`
/// can be scaled to it; `None` where it cannot.
pub fn resize_image_checked(size: u32, img: &image::DynamicImage) -> (r: Option<
    image::DynamicImage,
>)
    ensures
        match r {
            Some(out) => {
                &&& scalable(picture_width(*img), picture_height(*img), size)
                &&& is_thumbnail_size(
                    picture_width(out),
                    picture_height(out),
                    picture_width(*img),
                    picture_height(*img),
                    size,
                )
            },
            None => !scalable(picture_width(*img), picture_height(*img), size),
        },
{
    if size < 1 || size > MAX_SIDE {
        return None;
    }
    let (width, height) = picture_sides(img);
    let limit = 100 * size;
    if width > limit || height > limit {
        return None;
    }
    Some(resize_image(size, img))
}

} // verus!

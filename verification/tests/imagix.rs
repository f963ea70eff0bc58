use rust_system::imagix::elapsed::Elapsed;
use rust_system::imagix::error::ImagixError;
use rust_system::imagix::paths::{is_image, thumbnail_of};
use rust_system::imagix::resize::{
    get_image_files, job_for, picture_sides, process_resize_request, resize_all, resize_image,
    resize_image_checked, resize_single, Mode, ResizeJob, SizeOption, MAX_SIDE,
};
use rust_system::imagix::stats::get_stats;
use std::path::PathBuf;
use std::time::Instant;

fn strings(items: &[&str]) -> Vec<String> {
    items.iter().map(|s| s.to_string()).collect()
}

#[test]
fn test_single_image_resize() {
    let path = PathBuf::from("/Users/nino/CLionProjects/Rust_System/imagix/image1.jpg");
    let des_path = PathBuf::from("/Users/nino/CLionProjects/Rust_System/imagix/tmp/image1.png");
    let mut planned = PathBuf::new();
    match process_resize_request(SizeOption::Small, Mode::Single, path.to_str().unwrap(), &Ok(Vec::new())) {
        Ok(jobs) => {
            println!("Success.");
            planned = PathBuf::from(&jobs[0].target);
        }
        Err(e) => println!("Failed. {}", e.message()),
    }
    assert_eq!(true, des_path == planned);
}

#[test]
fn single_request_is_one_job() {
    let jobs = process_resize_request(SizeOption::Medium, Mode::Single, "photos/cat.jpg", &Ok(strings(&["x.png"]))).unwrap();
    assert_eq!(
        jobs,
        vec![ResizeJob {
            source: "photos/cat.jpg".to_string(),
            folder: "photos/tmp/".to_string(),
            target: "photos/tmp/cat.png".to_string(),
            size: 400,
        }]
    );
}

#[test]
fn single_request_needs_a_file_name() {
    let none = Ok(Vec::new());
    for path in ["photos/", "", "photos/..", "..", ".", "a/b/."] {
        let r = process_resize_request(SizeOption::Small, Mode::Single, path, &none);
        assert_eq!(r, Err(ImagixError::UserInputError("No file name.".to_string())));
    }
    assert_eq!(resize_single(200, ""), Err(ImagixError::UserInputError("No file name.".to_string())));
}

#[test]
fn request_for_all_takes_the_pictures_in_order() {
    let entries = strings(&["d/a.jpg", "d/notes.txt", "d/b.PNG", "d/c.jpeg", "d/e.JPG", "d/f.png", "d/g.Png"]);
    let entries = Ok(entries);
    let jobs = process_resize_request(SizeOption::Large, Mode::All, "d", &entries).unwrap();
    let sources: Vec<&str> = jobs.iter().map(|j| j.source.as_str()).collect();
    assert_eq!(sources, vec!["d/a.jpg", "d/b.PNG", "d/e.JPG", "d/f.png"]);
    let targets: Vec<&str> = jobs.iter().map(|j| j.target.as_str()).collect();
    assert_eq!(targets, vec!["d/tmp/a.png", "d/tmp/b.png", "d/tmp/e.png", "d/tmp/f.png"]);
    assert!(jobs.iter().all(|j| j.size == 800 && j.folder == "d/tmp/"));
    assert_eq!(resize_all(800, &entries), jobs);
}

#[test]
fn request_for_all_on_an_empty_folder_is_no_job() {
    assert_eq!(process_resize_request(SizeOption::Small, Mode::All, "d", &Ok(Vec::new())), Ok(Vec::new()));
    assert_eq!(resize_all(200, &Ok(Vec::new())), Vec::new());
}

#[test]
fn sizes_in_pixels() {
    assert_eq!(SizeOption::Small.pixels(), 200);
    assert_eq!(SizeOption::Medium.pixels(), 400);
    assert_eq!(SizeOption::Large.pixels(), 800);
    assert_eq!(MAX_SIDE, 800);
}

#[test]
fn size_from_its_name() {
    assert_eq!(SizeOption::from_str("small"), Ok(SizeOption::Small));
    assert_eq!(SizeOption::from_str("medium"), Ok(SizeOption::Medium));
    assert_eq!(SizeOption::from_str("large"), Ok(SizeOption::Large));
    assert_eq!(SizeOption::from_str("huge"), Ok(SizeOption::Small));
    assert_eq!(SizeOption::from_str(""), Ok(SizeOption::Small));
    assert_eq!(SizeOption::from_str("Large"), Ok(SizeOption::Small));
}

#[test]
fn mode_from_its_name() {
    assert_eq!(Mode::from_str("single"), Ok(Mode::Single));
    assert_eq!(Mode::from_str("all"), Ok(Mode::All));
    let err = Mode::from_str("both").unwrap_err();
    assert_eq!(err, ImagixError::UserInputError("Wrong value for mode.".to_string()));
    assert_eq!(err.message(), "Wrong value for mode.");
    assert!(Mode::from_str("All").is_err());
}

#[test]
fn pictures_are_known_by_their_extension() {
    assert!(is_image("a.jpg"));
    assert!(is_image("a.JPG"));
    assert!(is_image("a.png"));
    assert!(is_image("dir.d/a.b.PNG"));
    assert!(!is_image("a.Jpg"));
    assert!(!is_image("a.gif"));
    assert!(!is_image("jpg"));
    assert!(!is_image(".jpg"));
    assert!(!is_image("dir.jpg/readme"));
    assert!(!is_image("a.jpg/"));
    assert!(!is_image(""));
    assert!(!is_image("a."));
}

#[test]
fn image_files_keep_their_order() {
    let entries = strings(&["z.png", "a.txt", "m.jpg", ".png", "b.JPG"]);
    assert_eq!(get_image_files(&entries), strings(&["z.png", "m.jpg", "b.JPG"]));
    assert_eq!(get_image_files(&Vec::new()), Vec::<String>::new());
}

#[test]
fn thumbnail_goes_to_tmp_beside_the_picture() {
    assert_eq!(thumbnail_of("/a/b/c.jpg"), Some(("/a/b/tmp/".to_string(), "/a/b/tmp/c.png".to_string())));
    assert_eq!(thumbnail_of("c.jpg"), Some(("tmp/".to_string(), "tmp/c.png".to_string())));
    assert_eq!(thumbnail_of("/c.tar.gz"), Some(("/tmp/".to_string(), "/tmp/c.tar.png".to_string())));
    assert_eq!(thumbnail_of("d/plain"), Some(("d/tmp/".to_string(), "d/tmp/plain.png".to_string())));
    assert_eq!(thumbnail_of("d/.hidden"), Some(("d/tmp/".to_string(), "d/tmp/.hidden.png".to_string())));
    assert_eq!(thumbnail_of("d/"), None);
    assert_eq!(thumbnail_of(""), None);
    assert_eq!(thumbnail_of("."), None);
    assert_eq!(thumbnail_of(".."), None);
    assert_eq!(thumbnail_of("d/.."), None);
    assert_eq!(thumbnail_of("d/./."), None);
    assert_eq!(thumbnail_of("d/..."), Some(("d/tmp/".to_string(), "d/tmp/...png".to_string())));
    assert_eq!(thumbnail_of("d/..a"), Some(("d/tmp/".to_string(), "d/tmp/..png".to_string())));
}

#[test]
fn job_holds_source_and_size() {
    let job = job_for("p/q.png", 123).unwrap();
    assert_eq!(job.source, "p/q.png");
    assert_eq!(job.target, "p/tmp/q.png");
    assert_eq!(job.size, 123);
    assert_eq!(job_for("p/", 123), None);
}

#[test]
fn elapsed_in_words() {
    assert_eq!(Elapsed { secs: 0, nanos: 0 }.render(), "0 ns");
    assert_eq!(Elapsed { secs: 0, nanos: 999 }.render(), "999 ns");
    assert_eq!(Elapsed { secs: 0, nanos: 1_000 }.render(), "1 us");
    assert_eq!(Elapsed { secs: 0, nanos: 250_999 }.render(), "250 us");
    assert_eq!(Elapsed { secs: 0, nanos: 1_000_000 }.render(), "1 ms");
    assert_eq!(Elapsed { secs: 0, nanos: 999_999_999 }.render(), "999 ms");
    assert_eq!(Elapsed { secs: 3, nanos: 70_000_000 }.render(), "3.07 s");
    assert_eq!(Elapsed { secs: 9, nanos: 999_999_999 }.render(), "9.99 s");
    assert_eq!(Elapsed { secs: 1, nanos: 0 }.render(), "1.00 s");
    assert_eq!(Elapsed { secs: 10, nanos: 500_000_000 }.render(), "10 s");
    assert_eq!(Elapsed { secs: u64::MAX, nanos: 1 }.render(), "18446744073709551615 s");
}

#[test]
fn elapsed_since_a_start() {
    let start = Instant::now();
    let elapsed = Elapsed::from(&start);
    assert!(elapsed.nanos < 1_000_000_000);
    assert!(elapsed.secs < 60);
}

#[test]
fn stats_count_and_megabytes() {
    assert_eq!(get_stats(&vec![]), Some((0, 0)));
    assert_eq!(get_stats(&vec![999_999]), Some((1, 0)));
    assert_eq!(get_stats(&vec![1_500_000, 2_600_000, 1]), Some((3, 4)));
    assert_eq!(get_stats(&vec![u64::MAX]), Some((1, 18_446_744_073_709)));
}

#[test]
fn stats_refuse_a_sum_that_overflows() {
    assert_eq!(get_stats(&vec![u64::MAX, 1]), None);
    assert_eq!(get_stats(&vec![1, u64::MAX, 5]), None);
}

#[test]
fn resize_image_fits_the_square() {
    let img = image::DynamicImage::new_rgb8(1000, 500);
    let small = resize_image(200, &img);
    assert_eq!((small.width(), small.height()), (200, 100));
    let tall = image::DynamicImage::new_rgb8(100, 400);
    let large = resize_image(800, &tall);
    assert_eq!((large.width(), large.height()), (200, 800));
}

#[test]
fn error_carries_its_message() {
    assert_eq!(ImagixError::UserInputError("a".to_string()).message(), "a");
    assert_eq!(ImagixError::FileIOError("b".to_string()).message(), "b");
    assert_eq!(ImagixError::ImageResizingError("c".to_string()).message(), "c");
}

#[test]
fn resize_image_touches_the_limiting_side() {
    let wide = image::DynamicImage::new_rgba8(4000, 3);
    let r = resize_image(400, &wide);
    assert_eq!((r.width(), r.height()), (400, 1));
    let square = image::DynamicImage::new_luma8(7, 7);
    let r = resize_image(800, &square);
    assert_eq!((r.width(), r.height()), (800, 800));
    let odd = image::DynamicImage::new_rgb16(333, 1001);
    let r = resize_image(200, &odd);
    assert_eq!((r.width(), r.height()), (67, 200));
}

#[test]
fn resize_image_never_goes_under_one_pixel() {
    let empty = image::DynamicImage::new_rgb8(0, 0);
    let r = resize_image(200, &empty);
    assert_eq!((r.width(), r.height()), (1, 1));
    let flat = image::DynamicImage::new_rgb8(50, 0);
    let r = resize_image(200, &flat);
    assert!(r.width() >= 1 && r.width() <= 200);
    assert_eq!(r.height(), 1);
    let thin = image::DynamicImage::new_rgb8(20000, 3);
    let r = resize_image(200, &thin);
    assert_eq!((r.width(), r.height()), (200, 1));
}

#[test]
fn resize_image_keeps_the_proportion() {
    for (w, h, size) in [(333u32, 1001u32, 200u32), (1000, 500, 200), (640, 480, 400), (3, 2, 800), (799, 800, 800)] {
        let img = image::DynamicImage::new_luma8(w, h);
        let r = resize_image(size, &img);
        let (w2, h2) = (r.width() as i64, r.height() as i64);
        assert!(w2 == size as i64 || h2 == size as i64);
        let skew = h2 * w as i64 - w2 * h as i64;
        assert!(skew.abs() <= w.max(h) as i64);
    }
}

#[test]
fn checked_resize_refuses_what_cannot_be_scaled() {
    let img = image::DynamicImage::new_rgb8(10, 20);
    assert!(resize_image_checked(0, &img).is_none());
    assert!(resize_image_checked(MAX_SIDE + 1, &img).is_none());
    let wide = image::DynamicImage::new_luma8(20001, 1);
    assert!(resize_image_checked(200, &wide).is_none());
    let tall = image::DynamicImage::new_luma8(1, 20001);
    assert!(resize_image_checked(200, &tall).is_none());
    let white = image::DynamicImage::ImageLuma16(image::ImageBuffer::from_pixel(300, 300, image::Luma([u16::MAX])));
    assert!(resize_image_checked(1, &white).is_none());
}

#[test]
fn checked_resize_scales_what_can_be_scaled() {
    let img = image::DynamicImage::new_rgb8(1000, 500);
    let r = resize_image_checked(200, &img).unwrap();
    assert_eq!((r.width(), r.height()), (200, 100));
    let edge = image::DynamicImage::new_luma8(20000, 200);
    let r = resize_image_checked(200, &edge).unwrap();
    assert_eq!((r.width(), r.height()), (200, 2));
    let white = image::DynamicImage::ImageLuma16(image::ImageBuffer::from_pixel(100, 100, image::Luma([u16::MAX])));
    let r = resize_image_checked(1, &white).unwrap();
    assert_eq!((r.width(), r.height()), (1, 1));
    assert_eq!(r.as_luma16().unwrap().get_pixel(0, 0), &image::Luma([u16::MAX]));
}

#[test]
fn picture_sides_are_width_and_height() {
    assert_eq!(picture_sides(&image::DynamicImage::new_rgb8(30, 40)), (30, 40));
    assert_eq!(picture_sides(&image::DynamicImage::new_luma16(0, 7)), (0, 7));
    let r = resize_image(400, &image::DynamicImage::new_rgba8(80, 60));
    assert_eq!(picture_sides(&r), (400, 300));
}

#[test]
fn failed_listing_gives_no_job() {
    let failed = Err(ImagixError::UserInputError("Invalid source folder".to_string()));
    assert_eq!(process_resize_request(SizeOption::Small, Mode::All, "nowhere", &failed), Ok(Vec::new()));
    assert_eq!(resize_all(200, &failed), Vec::new());
    let job = process_resize_request(SizeOption::Small, Mode::Single, "a/b.jpg", &failed).unwrap();
    assert_eq!(job.len(), 1);
}

#[test]
fn size_and_mode_parse_from_text() {
    assert_eq!("medium".parse::<SizeOption>(), Ok(SizeOption::Medium));
    assert_eq!("large".parse::<SizeOption>(), Ok(SizeOption::Large));
    assert_eq!("tiny".parse::<SizeOption>(), Ok(SizeOption::Small));
    assert_eq!("all".parse::<Mode>(), Ok(Mode::All));
    assert_eq!("single".parse::<Mode>(), Ok(Mode::Single));
    assert_eq!("few".parse::<Mode>(), Err(ImagixError::UserInputError("Wrong value for mode.".to_string())));
}

#[test]
fn backslash_is_part_of_a_name() {
    assert_eq!(thumbnail_of("d\\e.jpg"), Some(("tmp/".to_string(), "tmp/d\\e.png".to_string())));
    assert!(is_image("d\\e.jpg"));
}

#[test]
fn elapsed_from_its_parts() {
    assert_eq!(Elapsed::new(3, 70_000_000), Elapsed { secs: 3, nanos: 70_000_000 });
    assert_eq!(Elapsed::new(0, 1_500).render(), "1 us");
}

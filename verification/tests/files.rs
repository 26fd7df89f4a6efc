use photo2video::files::{
    concat_escape, ext_in, extension, ff_path_escape, format_by_name, is_audio, is_image,
    is_project_file, output_name, project_file_name, same_path_ci, stem,
};
use photo2video::options::OutputFormat;

#[test]
fn extensions_are_read_as_paths_do() {
    assert_eq!(extension("a.tar.gz").as_deref(), Some("gz"));
    assert_eq!(extension("noext"), None);
    assert_eq!(extension(".hidden"), None);
    assert_eq!(extension("dot."), Some(String::new()));
    assert_eq!(stem("a.tar.gz"), "a.tar");
    assert_eq!(stem(".hidden"), ".hidden");
}

#[test]
fn kinds_of_files_are_told_apart() {
    assert!(is_image("IMG_1.JPG"));
    assert!(is_image("x.tiff"));
    assert!(!is_image("x.heic"));
    assert!(!is_image("jpg"));
    assert!(is_audio("song.Mp3"));
    assert!(!is_audio("song.jpg"));
    assert!(is_project_file("日本旅遊.P2V"));
    assert!(ext_in("a.b", &["c", "B"]));
    assert!(!ext_in("a.b", &["c"]));
}

#[test]
fn paths_are_compared_without_case() {
    assert!(same_path_ci("D:\\A.p2v", "d:\\a.P2V"));
    assert!(same_path_ci("Ä.p2v", "ä.p2v"));
    assert!(!same_path_ci("a.p2v", "b.p2v"));
}

#[test]
fn video_names_get_the_extension_of_the_format() {
    assert_eq!(output_name("film.mp4", OutputFormat::Mp4), "film.mp4");
    assert_eq!(output_name("film.MP4", OutputFormat::Mp4), "film.MP4");
    assert_eq!(output_name("film.mkv", OutputFormat::Mp4), "film.mp4");
    assert_eq!(output_name("film", OutputFormat::Webm), "film.webm");
    assert_eq!(output_name("film.v2", OutputFormat::Mov), "film.v2.mov");
}

#[test]
fn formats_follow_the_file_name() {
    assert_eq!(format_by_name("a.WEBM"), OutputFormat::Webm);
    assert_eq!(format_by_name("a.mkv"), OutputFormat::Mkv);
    assert_eq!(format_by_name("a.mov"), OutputFormat::Mov);
    assert_eq!(format_by_name("a.avi"), OutputFormat::Avi);
    assert_eq!(format_by_name("a"), OutputFormat::Mp4);
    assert_eq!(format_by_name("a.txt"), OutputFormat::Mp4);
}

#[test]
fn project_names_keep_or_get_their_extension() {
    assert_eq!(project_file_name("x.p2v"), "x.p2v");
    assert_eq!(project_file_name("x.P2V"), "x.P2V");
    assert_eq!(project_file_name("x.txt"), "x.txt.p2v");
    assert_eq!(project_file_name("x"), "x.p2v");
}

#[test]
fn paths_are_quoted_for_ffmpeg() {
    assert_eq!(ff_path_escape("C:\\O'Brien\\f.ttf"), "C\\:/O'\\''Brien/f.ttf");
    assert_eq!(concat_escape("C:\\it's\\a.jpg"), "C:/it'\\''s/a.jpg");
}

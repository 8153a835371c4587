use wget::{
    add_suffix_before_extension, candidate_name, expand_home, extract_filename_from_url,
    format_size, join_path, replace_all, resolve_name, status_is_success, vec_contains_string,
};

#[test]
fn filename_from_url_takes_last_segment() {
    assert_eq!(extract_filename_from_url("https://a.test/dir/file.bin"), "file.bin");
    assert_eq!(extract_filename_from_url("no-slashes"), "no-slashes");
}

#[test]
fn filename_falls_back_to_download() {
    // a URL with no usable segment gets the fallback name
    assert_eq!(extract_filename_from_url("https://a.test/dir/"), "download");
    assert_eq!(extract_filename_from_url(""), "download");
    let none: Option<String> = None;
    assert_eq!(candidate_name(&none, "https://a.test/dir/", 0), "download");
    assert_eq!(candidate_name(&none, "https://a.test/dir/", 1), "download_1");
}

#[test]
fn format_size_bytes() {
    assert_eq!(format_size(0), "0B");
    assert_eq!(format_size(999), "999B");
}

#[test]
fn format_size_kilobytes() {
    assert_eq!(format_size(1000), "1.00KB");
    assert_eq!(format_size(1500), "1.50KB");
    assert_eq!(format_size(999994), "999.99KB");
}

#[test]
fn format_size_megabytes() {
    assert_eq!(format_size(1_000_000), "1.00MB");
    assert_eq!(format_size(1_234_567), "1.23MB");
    assert_eq!(format_size(2_500_000), "2.50MB");
}

#[test]
fn format_size_boundaries() {
    assert_eq!(format_size(999_999), "1000.00KB");
    assert_eq!(format_size(u64::MAX), "18446744073709.55MB");
}

#[test]
fn suffix_goes_before_extension() {
    assert_eq!(add_suffix_before_extension("file.txt", "_1"), "file_1.txt");
    assert_eq!(add_suffix_before_extension("archive.tar.gz", "_2"), "archive.tar_2.gz");
    assert_eq!(add_suffix_before_extension("noext", "_1"), "noext_1");
}

#[test]
fn candidate_names_count_up() {
    let out: Option<String> = Some("file.txt".to_string());
    assert_eq!(candidate_name(&out, "ignored", 0), "file.txt");
    assert_eq!(candidate_name(&out, "ignored", 1), "file_1.txt");
    assert_eq!(candidate_name(&out, "ignored", 2), "file_2.txt");
    let none: Option<String> = None;
    assert_eq!(candidate_name(&none, "https://a.test/x.bin", 1), "x_1.bin");
}

#[test]
fn collision_yields_suffixed_name() {
    // the destination collision law: asking for the same output name twice
    // in one directory yields the base name, then the _1 variant
    let out: Option<String> = Some("file.txt".to_string());
    let taken0: Vec<String> = vec![];
    let first = resolve_name(&taken0, &out, "https://a.test/file.txt");
    assert_eq!(first, "file.txt");
    let taken1: Vec<String> = vec![first];
    let second = resolve_name(&taken1, &out, "https://a.test/file.txt");
    assert_eq!(second, "file_1.txt");
    assert_ne!(second, "file.txt");
}

#[test]
fn resolve_skips_every_taken_name() {
    let out: Option<String> = Some("a.b".to_string());
    let taken: Vec<String> = vec!["a.b".to_string(), "a_1.b".to_string(), "a_2.b".to_string()];
    assert_eq!(resolve_name(&taken, &out, ""), "a_3.b");
}

#[test]
fn vec_contains_matches_exact_strings() {
    let v: Vec<String> = vec!["abc".to_string(), "def".to_string()];
    assert!(vec_contains_string(&v, "abc"));
    assert!(!vec_contains_string(&v, "ab"));
    assert!(!vec_contains_string(&v, "xyz"));
}

#[test]
fn join_path_inserts_single_slash() {
    assert_eq!(join_path("dir", "f.txt"), "dir/f.txt");
    assert_eq!(join_path("dir/", "f.txt"), "dir/f.txt");
    assert_eq!(join_path("", "f.txt"), "f.txt");
    assert_eq!(join_path("dir", "/abs.txt"), "/abs.txt");
}

#[test]
fn home_expansion() {
    let home: Option<String> = Some("/home/u".to_string());
    assert_eq!(expand_home("~/d/f", &home), "/home/u//d/f");
    assert_eq!(expand_home("~", &home), "/home/u/");
    assert_eq!(expand_home("~user/d", &home), "~user/d");
    assert_eq!(expand_home("plain/d", &home), "plain/d");
    let none: Option<String> = None;
    assert_eq!(expand_home("~/d", &none), "~/d");
}

#[test]
fn replace_all_replaces_every_occurrence() {
    assert_eq!(replace_all("aXbXc", "X", "Y"), "aYbYc");
    assert_eq!(replace_all("aaa", "aa", "b"), "ba");
    assert_eq!(replace_all("nothing", "zz", "y"), "nothing");
    assert_eq!(replace_all("text", "", "y"), "text");
}

#[test]
fn success_status_is_the_2xx_class() {
    assert!(status_is_success(200));
    assert!(status_is_success(204));
    assert!(status_is_success(299));
    assert!(!status_is_success(199));
    assert!(!status_is_success(300));
    assert!(!status_is_success(404));
    assert!(!status_is_success(500));
}

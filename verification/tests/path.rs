use file_management::path::{extension, file_name, join};

#[test]
fn file_name_is_what_follows_the_last_separator() {
    assert_eq!(file_name("/watch/pic.png"), "pic.png");
    assert_eq!(file_name("C:/Downloads/setup.exe"), "setup.exe");
    assert_eq!(file_name("C:\\Downloads\\a.zip"), "a.zip");
    assert_eq!(file_name("C:\\Downloads/mixed\\b.rar"), "b.rar");
}

#[test]
fn file_name_of_a_bare_name_is_the_name() {
    assert_eq!(file_name("notes.txt"), "notes.txt");
    assert_eq!(file_name("plain"), "plain");
}

#[test]
fn file_name_is_empty_after_a_trailing_separator() {
    assert_eq!(file_name("/watch/"), "");
    assert_eq!(file_name("/"), "");
    assert_eq!(file_name(""), "");
}

#[test]
fn extension_is_what_follows_the_last_dot() {
    assert_eq!(extension("/watch/pic.png"), Some("png".to_string()));
    assert_eq!(extension("report.pdf"), Some("pdf".to_string()));
    assert_eq!(extension("archive.tar.gz"), Some("gz".to_string()));
    assert_eq!(extension("/watch/.hidden.txt"), Some("txt".to_string()));
}

#[test]
fn extension_keeps_the_case_it_was_written_in() {
    assert_eq!(extension("Report.PDF"), Some("PDF".to_string()));
    assert_eq!(extension("/watch/Photo.JpG"), Some("JpG".to_string()));
}

#[test]
fn extension_is_absent_without_a_dot() {
    assert_eq!(extension("/watch/README"), None);
    assert_eq!(extension(""), None);
    assert_eq!(extension("/watch/"), None);
}

#[test]
fn extension_is_absent_when_the_only_dot_leads_the_name() {
    assert_eq!(extension(".bashrc"), None);
    assert_eq!(extension("/home/user/.profile"), None);
    assert_eq!(extension("."), None);
}

#[test]
fn extension_is_absent_for_the_parent_component() {
    assert_eq!(extension(".."), None);
    assert_eq!(extension("/watch/.."), None);
}

#[test]
fn extension_is_empty_after_a_trailing_dot() {
    assert_eq!(extension("odd."), Some(String::new()));
    assert_eq!(extension("/watch/..."), Some(String::new()));
}

#[test]
fn extension_ignores_dots_in_directories() {
    assert_eq!(extension("/watch/v1.2/README"), None);
    assert_eq!(extension("C:\\data.d\\file"), None);
    assert_eq!(extension("/watch/v1.2/a.zip"), Some("zip".to_string()));
}

#[test]
fn extension_of_a_name_with_two_leading_dots() {
    assert_eq!(extension("..pdf"), Some("pdf".to_string()));
}

#[test]
fn extension_counts_characters_not_bytes() {
    assert_eq!(extension("/watch/r\u{e9}sum\u{e9}.pdf"), Some("pdf".to_string()));
    assert_eq!(file_name("/w\u{e4}tch/r\u{e9}sum\u{e9}.pdf"), "r\u{e9}sum\u{e9}.pdf");
    assert_eq!(extension("/watch/file.\u{444}\u{430}\u{439}\u{43b}"), Some("\u{444}\u{430}\u{439}\u{43b}".to_string()));
}

#[test]
fn join_puts_a_separator_between_directory_and_name() {
    assert_eq!(join("/archives", "a.zip"), "/archives/a.zip");
    assert_eq!(join("/images", "pic.png"), "/images/pic.png");
}

#[test]
fn join_adds_no_separator_after_one() {
    assert_eq!(join("C:/ZIP/", "a.zip"), "C:/ZIP/a.zip");
    assert_eq!(join("C:\\ZIP\\", "a.zip"), "C:\\ZIP\\a.zip");
    assert_eq!(join("/", "a.zip"), "/a.zip");
}

#[test]
fn join_with_an_empty_directory_is_the_name() {
    assert_eq!(join("", "a.zip"), "a.zip");
}

#[test]
fn joined_name_is_found_again() {
    for dir in ["/archives", "C:/ZIP/", "", "rel\\dir"] {
        for name in ["a.zip", "Report.PDF", "noext"] {
            assert_eq!(file_name(&join(dir, name)), name);
        }
    }
}

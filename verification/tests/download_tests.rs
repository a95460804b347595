use prose_shell::download::remove_path_traversal;
use prose_shell::download::split_filename;

#[test]
fn test_split_filename() {
    assert_eq!(
        split_filename("file.tar.gz"),
        ("file".to_string(), ".tar.gz".to_string())
    );
    assert_eq!(
        split_filename("file.tar.bz2"),
        ("file".to_string(), ".tar.bz2".to_string())
    );
    assert_eq!(
        split_filename("file.tar.xz"),
        ("file".to_string(), ".tar.xz".to_string())
    );
    assert_eq!(
        split_filename("file.txt"),
        ("file".to_string(), ".txt".to_string())
    );
    assert_eq!(split_filename("file"), ("file".to_string(), "".to_string()));

    assert_eq!(
        split_filename("file..."),
        ("file..".to_string(), ".".to_string())
    );
    assert_eq!(
        split_filename("file.tar.gz.tar.gz"),
        ("file.tar.gz".to_string(), ".tar.gz".to_string())
    );
}

#[test]
fn test_path_traversal() {
    assert_eq!(remove_path_traversal("file"), "file");
    assert_eq!(remove_path_traversal("file.txt"), "file.txt");
    assert_eq!(remove_path_traversal("file.tar.gz"), "file.tar.gz");
    assert_eq!(remove_path_traversal("file.tar.gz/"), "file.tar.gz");
    assert_eq!(remove_path_traversal("file.tar.gz\\"), "file.tar.gz");
    assert_eq!(remove_path_traversal("file.tar.gz:"), "file.tar.gz");
    assert_eq!(remove_path_traversal("file.tar.gz~"), "file.tar.gz");
    assert_eq!(remove_path_traversal("file.tar.gz@"), "file.tar.gz");
    assert_eq!(remove_path_traversal("file.tar.gz//"), "file.tar.gz");
    assert_eq!(remove_path_traversal("file.tar.gz\\\\"), "file.tar.gz");
    assert_eq!(remove_path_traversal("file.tar.gz::"), "file.tar.gz");
    assert_eq!(remove_path_traversal("file.tar.gz~~"), "file.tar.gz");
    assert_eq!(remove_path_traversal("file.tar.gz@@"), "file.tar.gz");
    assert_eq!(remove_path_traversal("file.tar.gz.."), "file.tar.gz");
    assert_eq!(remove_path_traversal("file.tar.gz...."), "file.tar.gz");
    assert_eq!(remove_path_traversal("file.tar.gz..\\.."), "file.tar.gz");
    assert_eq!(
        remove_path_traversal("C:\\file.tar.gz..//.."),
        "Cfile.tar.gz"
    );
    assert_eq!(remove_path_traversal("~/file.tar.gz..:.."), "file.tar.gz");
    assert_eq!(
        remove_path_traversal("../../../../file.tar.gz..~~.."),
        "file.tar.gz"
    );
    assert_eq!(remove_path_traversal("/file.tar.gz..@@.."), "file.tar.gz");
    assert_eq!(remove_path_traversal("/./."), "");
    assert_eq!(remove_path_traversal("/.../..."), "");
    assert_eq!(remove_path_traversal("\x00hi"), "hi");
    assert_eq!(remove_path_traversal("ü§∞üèΩ¬®¬¨√∏¬°‰Ω†Â•Ω"), "ü§∞üèΩ¬®¬¨√∏¬°‰Ω†Â•Ω");
}

use prose_shell::download::candidate_filename;
use prose_shell::download::derive_filename;
use prose_shell::text::u64_to_string;

#[test]
fn test_derive_filename_from_url() {
    assert_eq!(
        derive_filename("https://host/files/report%20final.pdf", ""),
        "report final.pdf"
    );
    assert_eq!(derive_filename("https://host/a/b.txt", "undefined"), "b.txt");
    assert_eq!(derive_filename("no-slash-url", ""), "no-slash-url");
}

#[test]
fn test_derive_filename_given_name_wins() {
    assert_eq!(
        derive_filename("https://host/x.bin", "name.txt"),
        "name.txt"
    );
    assert_eq!(
        derive_filename("https://host/x.bin", "../../evil.txt"),
        "evil.txt"
    );
}

#[test]
fn test_derive_filename_fallback() {
    assert_eq!(derive_filename("https://host/..", ""), "File");
    assert_eq!(derive_filename("https://host/", ""), "File");
}

#[test]
fn test_candidate_filename() {
    assert_eq!(candidate_filename("file", ".txt", 1), "file (1).txt");
    assert_eq!(candidate_filename("archive", ".tar.gz", 12), "archive (12).tar.gz");
    assert_eq!(candidate_filename("plain", "", 3), "plain (3)");
}

#[test]
fn test_u64_to_string() {
    assert_eq!(u64_to_string(0), "0");
    assert_eq!(u64_to_string(7), "7");
    assert_eq!(u64_to_string(1234567890), "1234567890");
    assert_eq!(u64_to_string(u64::MAX), "18446744073709551615");
}

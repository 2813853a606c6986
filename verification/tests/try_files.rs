use yerd_proxy::try_files::{
    content_type_for, directory_candidate, is_php_source, percent_decode, php_split_candidate,
    static_candidate,
};

#[test]
fn root_and_directories_go_to_front_controller() {
    assert_eq!(static_candidate("/"), None);
    assert_eq!(static_candidate(""), None);
    assert_eq!(static_candidate("/foo/"), None);
    assert_eq!(static_candidate("/foo/bar/"), None);
}

#[test]
fn plain_file_paths_resolve() {
    assert_eq!(
        static_candidate("/favicon.ico"),
        Some("favicon.ico".to_owned())
    );
    assert_eq!(
        static_candidate("/build/assets/app.css"),
        Some("build/assets/app.css".to_owned())
    );
}

#[test]
fn query_string_is_ignored() {
    assert_eq!(
        static_candidate("/app.js?v=123"),
        Some("app.js".to_owned())
    );
}

#[test]
fn percent_encoded_segments_decode() {
    assert_eq!(
        static_candidate("/my%20file.png"),
        Some("my file.png".to_owned())
    );
}

#[test]
fn traversal_is_rejected() {
    assert_eq!(static_candidate("/../etc/passwd"), None);
    assert_eq!(static_candidate("/foo/../../bar"), None);
    assert_eq!(static_candidate("/."), None);
    assert_eq!(static_candidate("/%2e%2e/secret"), None);
    assert_eq!(static_candidate("/foo%2fbar"), None);
    assert_eq!(static_candidate("/foo%2"), None);
    assert_eq!(static_candidate("/foo%zz"), None);
}

#[test]
fn directory_candidate_accepts_root_and_trailing_slashes() {
    assert_eq!(directory_candidate("/"), Some(String::new()));
    assert_eq!(directory_candidate("/foo/"), Some("foo".to_owned()));
    assert_eq!(
        directory_candidate("/foo/bar/"),
        Some("foo/bar".to_owned())
    );
    assert_eq!(directory_candidate("/foo/?x=1"), Some("foo".to_owned()));
}

#[test]
fn directory_candidate_rejects_non_directory_paths() {
    assert_eq!(directory_candidate(""), None);
    assert_eq!(directory_candidate("/foo"), None);
    assert_eq!(directory_candidate("/foo/bar"), None);
}

#[test]
fn directory_candidate_rejects_traversal() {
    assert_eq!(directory_candidate("/../"), None);
    assert_eq!(directory_candidate("/foo/../../bar/"), None);
    assert_eq!(directory_candidate("/%2e%2e/"), None);
    assert_eq!(directory_candidate("/foo%2fbar/"), None);
}

#[test]
fn php_split_finds_first_php_segment() {
    assert_eq!(
        php_split_candidate("/theme/styles.php/moove/123/all"),
        Some((
            "theme/styles.php".to_owned(),
            "/moove/123/all".to_owned()
        ))
    );
    assert_eq!(
        php_split_candidate("/lib/javascript.php/1/lib/javascript-static.js"),
        Some((
            "lib/javascript.php".to_owned(),
            "/1/lib/javascript-static.js".to_owned()
        ))
    );
    assert_eq!(
        php_split_candidate("/a.php/b.php/c"),
        Some(("a.php".to_owned(), "/b.php/c".to_owned()))
    );
}

#[test]
fn php_split_yields_slash_only_path_info_for_trailing_slash() {
    assert_eq!(
        php_split_candidate("/file.php/"),
        Some(("file.php".to_owned(), "/".to_owned()))
    );
}

#[test]
fn php_split_keeps_trailing_slash_and_decodes() {
    assert_eq!(
        php_split_candidate("/file.php/dir/"),
        Some(("file.php".to_owned(), "/dir/".to_owned()))
    );
    assert_eq!(
        php_split_candidate("/file.php/my%20arg?x=1"),
        Some(("file.php".to_owned(), "/my arg".to_owned()))
    );
}

#[test]
fn php_split_ignores_plain_and_non_php_paths() {
    assert_eq!(php_split_candidate("/wp-login.php"), None);
    assert_eq!(php_split_candidate("/assets/app.css"), None);
    assert_eq!(php_split_candidate("/foo/bar"), None);
    assert_eq!(php_split_candidate("/"), None);
}

#[test]
fn php_split_rejects_traversal_in_script_half() {
    assert_eq!(php_split_candidate("/../evil.php/x"), None);
    assert_eq!(php_split_candidate("/%2e%2e/evil.php/x"), None);
    assert_eq!(php_split_candidate("/a%2fb.php/x"), None);
}

#[test]
fn php_sources_are_flagged() {
    assert!(is_php_source("index.php"));
    assert!(is_php_source("legacy.PHTML"));
    assert!(!is_php_source("favicon.ico"));
    assert!(!is_php_source("app.js"));
}

#[test]
fn content_types_cover_common_assets() {
    assert_eq!(
        content_type_for("index.html"),
        "text/html; charset=utf-8"
    );
    assert_eq!(
        content_type_for("index.htm"),
        "text/html; charset=utf-8"
    );
    assert_eq!(content_type_for("favicon.ico"), "image/x-icon");
    assert_eq!(
        content_type_for("app.css"),
        "text/css; charset=utf-8"
    );
    assert_eq!(
        content_type_for("app.js"),
        "text/javascript; charset=utf-8"
    );
    assert_eq!(content_type_for("logo.SVG"), "image/svg+xml");
    assert_eq!(content_type_for("font.woff2"), "font/woff2");
    assert_eq!(
        content_type_for("data.bin"),
        "application/octet-stream"
    );
    assert_eq!(
        content_type_for("noext"),
        "application/octet-stream"
    );
}

#[test]
fn path_info_keeps_every_slash() {
    assert_eq!(
        php_split_candidate("/theme/styles.php/moove//123/all"),
        Some(("theme/styles.php".to_owned(), "/moove//123/all".to_owned()))
    );
    assert_eq!(
        php_split_candidate("//a.php//"),
        Some(("a.php".to_owned(), "//".to_owned()))
    );
}

#[test]
fn path_info_may_hold_dots_but_no_separators() {
    assert_eq!(
        php_split_candidate("/a.php/../x"),
        Some(("a.php".to_owned(), "/../x".to_owned()))
    );
    assert_eq!(php_split_candidate("/a.php/b%5cc"), None);
    assert_eq!(php_split_candidate("/a.php/b%00c"), None);
    assert_eq!(php_split_candidate("/a.php/b%2fc"), None);
}

#[test]
fn escapes_are_decoded_as_utf8() {
    assert_eq!(static_candidate("/caf%C3%A9.txt"), Some("café.txt".to_owned()));
    assert_eq!(static_candidate("/caf%e9.txt"), None);
    assert_eq!(static_candidate("/%41%4a%6f"), Some("AJo".to_owned()));
    assert_eq!(static_candidate("/a%5cb"), None);
    assert_eq!(static_candidate("/a%00b"), None);
    assert_eq!(static_candidate("/été"), Some("été".to_owned()));
}

#[test]
fn empty_segments_are_dropped() {
    assert_eq!(static_candidate("//a///b.css"), Some("a/b.css".to_owned()));
    assert_eq!(directory_candidate("//a//"), Some("a".to_owned()));
    assert_eq!(static_candidate("?x=1"), None);
    assert_eq!(static_candidate("a.txt"), Some("a.txt".to_owned()));
    assert_eq!(directory_candidate("a/"), None);
}

#[test]
fn extensions_follow_the_last_dot() {
    assert!(!is_php_source(".php"));
    assert!(is_php_source("a.b.php"));
    assert!(!is_php_source("a.php.txt"));
    assert!(!is_php_source("dir.php/file"));
    assert!(is_php_source("dir/file.php/"));
    assert!(!is_php_source(""));
    assert!(!is_php_source(".."));
    assert!(is_php_source("x.pht"));
    assert!(is_php_source("x.phps"));
    assert!(!is_php_source("php"));
    for name in ["a.php3", "a.php4", "a.php5", "a.php7", "a.phtml"] {
        assert!(is_php_source(name), "{name}");
    }
}

#[test]
fn every_known_extension_has_its_type() {
    for (ext, kind) in [
        ("mjs", "text/javascript; charset=utf-8"),
        ("cjs", "text/javascript; charset=utf-8"),
        ("json", "application/json"),
        ("map", "application/json"),
        ("webmanifest", "application/manifest+json"),
        ("png", "image/png"),
        ("jpg", "image/jpeg"),
        ("jpeg", "image/jpeg"),
        ("gif", "image/gif"),
        ("webp", "image/webp"),
        ("avif", "image/avif"),
        ("bmp", "image/bmp"),
        ("woff", "font/woff"),
        ("ttf", "font/ttf"),
        ("otf", "font/otf"),
        ("eot", "application/vnd.ms-fontobject"),
        ("txt", "text/plain; charset=utf-8"),
        ("xml", "application/xml"),
        ("pdf", "application/pdf"),
        ("wasm", "application/wasm"),
        ("mp4", "video/mp4"),
        ("webm", "video/webm"),
        ("mp3", "audio/mpeg"),
        ("wav", "audio/wav"),
        ("zip", "application/zip"),
    ] {
        assert_eq!(content_type_for(&format!("dir/file.{ext}")), kind, "{ext}");
    }
}

#[test]
fn escaped_texts_decode_to_the_text() {
    let text = "caf\u{e9} 100% .txt";
    let upper: String = text.bytes().map(|b| format!("%{b:02X}")).collect();
    let lower: String = text.bytes().map(|b| format!("%{b:02x}")).collect();
    assert_eq!(static_candidate(&format!("/{upper}")).as_deref(), Some(text));
    assert_eq!(static_candidate(&format!("/{lower}")).as_deref(), Some(text));
}

#[test]
fn joined_texts_decode_jointly() {
    assert_eq!(static_candidate("/%61b").as_deref(), Some("ab"));
    assert_eq!(static_candidate("/c%64").as_deref(), Some("cd"));
    assert_eq!(static_candidate("/%61bc%64").as_deref(), Some("abcd"));
}

#[test]
fn decoding_a_segment() {
    assert_eq!(percent_decode("plain").as_deref(), Some("plain"));
    assert_eq!(percent_decode("a%20b%2Fc").as_deref(), Some("a b/c"));
    assert_eq!(percent_decode("%C3%a9").as_deref(), Some("\u{e9}"));
    for bad in ["%", "%2", "%zz", "%e9", "a%"] {
        assert_eq!(percent_decode(bad), None, "{bad}");
    }
}

use rust_https_server::utils::{
    format_file_size, generate_directory_listing, get_mime_type, is_safe_path, normalize_path,
    parse_query_string, sanitize_path, validate_file_extension, DirectoryEntry,
};
use rust_https_server::Error;
use std::path::Path;

fn with_floats(bytes: u64) -> String {
    let kb: u64 = 1024;
    let mb: u64 = kb * 1024;
    let gb: u64 = mb * 1024;
    if bytes < kb {
        format!("{} B", bytes)
    } else if bytes < mb {
        format!("{:.1} KB", bytes as f64 / kb as f64)
    } else if bytes < gb {
        format!("{:.1} MB", bytes as f64 / mb as f64)
    } else {
        format!("{:.1} GB", bytes as f64 / gb as f64)
    }
}

#[test]
fn file_sizes_are_written_with_one_decimal() {
    assert_eq!(format_file_size(0), "0 B");
    assert_eq!(format_file_size(1023), "1023 B");
    assert_eq!(format_file_size(1024), "1.0 KB");
    assert_eq!(format_file_size(1536), "1.5 KB");
    assert_eq!(format_file_size(1048575), "1024.0 KB");
    assert_eq!(format_file_size(1048576), "1.0 MB");
    assert_eq!(format_file_size(104857600), "100.0 MB");
    assert_eq!(format_file_size(1073741824), "1.0 GB");
    assert_eq!(format_file_size(u64::MAX), "17179869184.0 GB");
}

#[test]
fn a_tie_is_rounded_to_the_even_tenth() {
    assert_eq!(format_file_size(1280), "1.2 KB");
    assert_eq!(format_file_size(1792), "1.8 KB");
    assert_eq!(format_file_size(1075), "1.0 KB");
    assert_eq!(format_file_size(1076), "1.1 KB");
    assert_eq!(format_file_size(1024 + 256), with_floats(1024 + 256));
    assert_eq!(format_file_size(3 * 1024 * 1024 / 4 + 1024 * 1024), "1.8 MB");
}

#[test]
fn file_sizes_agree_with_floating_point_formatting() {
    let mut samples: Vec<u64> = Vec::new();
    for n in 0..5000u64 {
        samples.push(n);
    }
    for shift in 0..64u32 {
        let power = 1u64 << shift;
        for delta in 0..40u64 {
            samples.push(power.wrapping_add(delta));
            samples.push(power.wrapping_sub(delta));
            samples.push(power.wrapping_add(delta.wrapping_mul(power / 64 + 1)));
        }
    }
    for k in 0..4000u64 {
        samples.push(1024 + k * 256);
        samples.push(1048576 + k * 262144 / 8);
        samples.push(1073741824 + k * 268435456 / 16);
        samples.push((1u64 << 53) + k);
        samples.push((1u64 << 54) + k);
        samples.push((1u64 << 60) + k * 53687091);
        samples.push(u64::MAX - k);
        samples.push(u64::MAX - k * 1023);
    }
    let mut state: u64 = 0x9e3779b97f4a7c15;
    for _ in 0..20000 {
        state = state.wrapping_mul(6364136223846793005).wrapping_add(1442695040888963407);
        samples.push(state);
        samples.push(state >> 11);
        samples.push(state >> 24);
        samples.push(state >> 40);
    }
    for bytes in samples {
        assert_eq!(format_file_size(bytes), with_floats(bytes), "for {} bytes", bytes);
    }
}

#[test]
fn media_types_go_by_the_extension() {
    assert_eq!(get_mime_type("index.htm"), "text/html");
    assert_eq!(get_mime_type("a/b/c.JPEG"), "image/jpeg");
    assert_eq!(get_mime_type("archive.tar.gz"), "application/gzip");
    assert_eq!(get_mime_type("font.woff2"), "font/woff2");
    assert_eq!(get_mime_type("icon.ico"), "image/x-icon");
    assert_eq!(get_mime_type("page.xml"), "application/xml");
    assert_eq!(get_mime_type("doc.pdf"), "application/pdf");
    assert_eq!(get_mime_type("pic.gif"), "image/gif");
    assert_eq!(get_mime_type("pic.svg"), "image/svg+xml");
    assert_eq!(get_mime_type("f.woff"), "font/woff");
    assert_eq!(get_mime_type("f.ttf"), "font/ttf");
    assert_eq!(get_mime_type("f.eot"), "application/vnd.ms-fontobject");
    assert_eq!(get_mime_type("v.mp4"), "video/mp4");
    assert_eq!(get_mime_type("v.webm"), "video/webm");
    assert_eq!(get_mime_type("a.mp3"), "audio/mpeg");
    assert_eq!(get_mime_type("a.wav"), "audio/wav");
    assert_eq!(get_mime_type("a.zip"), "application/zip");
    assert_eq!(get_mime_type("a.tar"), "application/x-tar");
    assert_eq!(get_mime_type("noextension"), "application/octet-stream");
    assert_eq!(get_mime_type(".html"), "application/octet-stream");
    assert_eq!(get_mime_type("dir.html/"), "text/html");
    assert_eq!(get_mime_type("dir.html/."), "text/html");
    assert_eq!(get_mime_type("dir.html/.."), "application/octet-stream");
    assert_eq!(get_mime_type("dir.html/file"), "application/octet-stream");
    assert_eq!(get_mime_type(""), "application/octet-stream");
}

fn by_std(path: &str) -> &'static str {
    let extension = Path::new(path).extension().and_then(|e| e.to_str()).unwrap_or("");
    match extension.to_lowercase().as_str() {
        "html" | "htm" => "text/html",
        "css" => "text/css",
        "js" => "application/javascript",
        "txt" => "text/plain",
        "gz" => "application/gzip",
        "" => "none",
        _ => "other",
    }
}

fn by_library(path: &str) -> &'static str {
    match get_mime_type(path) {
        "application/octet-stream" => {
            if validate_file_extension(path, &["".to_string()]).is_ok() {
                "none"
            } else {
                "other"
            }
        }
        "text/html" => "text/html",
        "text/css" => "text/css",
        "application/javascript" => "application/javascript",
        "text/plain" => "text/plain",
        "application/gzip" => "application/gzip",
        _ => "other",
    }
}

#[test]
fn extensions_are_found_as_the_standard_library_finds_them() {
    let pieces = ["", "a", ".", "..", "/", "a.txt", ".txt", "b.", "x.HTML", "c.tar.gz", "//", "./"];
    for first in pieces {
        for second in pieces {
            for third in pieces {
                let path = format!("{}{}{}", first, second, third);
                assert_eq!(by_library(&path), by_std(&path), "for {:?}", path);
                let joined = format!("{}/{}/{}", first, second, third);
                assert_eq!(by_library(&joined), by_std(&joined), "for {:?}", joined);
            }
        }
    }
}

#[test]
fn a_sanitized_path_has_no_leading_slash() {
    assert_eq!(sanitize_path("test.txt").unwrap(), "test.txt");
    assert_eq!(sanitize_path("///a/b.txt").unwrap(), "a/b.txt");
    assert_eq!(sanitize_path("").unwrap(), "");
    assert_eq!(sanitize_path("/").unwrap(), "");
    assert!(matches!(
        sanitize_path("/a/../b"),
        Err(Error::InvalidPath(m)) if m == "Path traversal not allowed"
    ));
    assert!(matches!(
        sanitize_path("a..b"),
        Err(Error::InvalidPath(m)) if m == "Path traversal not allowed"
    ));
    assert!(matches!(
        sanitize_path("a\\b"),
        Err(Error::InvalidPath(m)) if m == "Invalid path separator"
    ));
    assert!(matches!(
        sanitize_path("..\\"),
        Err(Error::InvalidPath(m)) if m == "Path traversal not allowed"
    ));
}

#[test]
fn extensions_are_checked_in_lower_case() {
    let allowed = vec!["txt".to_string(), "\u{e4}".to_string()];
    assert!(validate_file_extension("a.txt", &allowed).is_ok());
    assert!(validate_file_extension("A.TXT", &allowed).is_ok());
    assert!(validate_file_extension("a.\u{c4}", &allowed).is_ok());
    assert!(validate_file_extension("anything.exe", &[]).is_ok());
    assert!(matches!(
        validate_file_extension("a.EXE", &allowed),
        Err(Error::InvalidPath(m)) if m == "File extension 'exe' not allowed"
    ));
    assert!(matches!(
        validate_file_extension("noextension", &allowed),
        Err(Error::InvalidPath(m)) if m == "File extension '' not allowed"
    ));
    assert!(validate_file_extension("a.txt", &["TXT".to_string()]).is_err());
}

#[test]
fn safe_paths_stay_below_the_served_directory() {
    assert!(is_safe_path("a/b.txt"));
    assert!(is_safe_path(""));
    assert!(!is_safe_path("/a"));
    assert!(!is_safe_path("a/../b"));
    assert!(!is_safe_path("a\\b"));
    assert_eq!(normalize_path("//a/b/"), "a/b/");
    assert_eq!(normalize_path("a"), "a");
    assert_eq!(normalize_path("///"), "");
}

#[test]
fn a_query_string_is_read_piece_by_piece() {
    let params = parse_query_string("a=1&b=two%20words&c&d=&a=3&e=x=y&%7Ek=%zz");
    assert_eq!(params.len(), 5);
    assert_eq!(params.name_at(0), "a");
    assert_eq!(params.get("a").map(|s| s.as_str()), Some("3"));
    assert_eq!(params.get("b").map(|s| s.as_str()), Some("two words"));
    assert_eq!(params.get("c"), None);
    assert_eq!(params.get("d").map(|s| s.as_str()), Some(""));
    assert_eq!(params.get("e").map(|s| s.as_str()), Some("x=y"));
    assert_eq!(params.get("~k").map(|s| s.as_str()), Some("%zz"));
    assert_eq!(parse_query_string("").len(), 0);
    let params = parse_query_string("k=%ff");
    assert_eq!(params.get("k").map(|s| s.as_str()), Some("%ff"));
    let params = parse_query_string("a+b=c+d");
    assert_eq!(params.get("a+b").map(|s| s.as_str()), Some("c+d"));
}

#[test]
fn a_directory_is_listed_row_by_row() {
    let entries = vec![
        DirectoryEntry {
            name: "notes.txt".to_string(),
            is_file: true,
            is_dir: false,
            size: 1536,
            modified: Some(0),
        },
        DirectoryEntry {
            name: "sub".to_string(),
            is_file: false,
            is_dir: true,
            size: 4096,
            modified: Some(1431648000),
        },
        DirectoryEntry {
            name: "odd".to_string(),
            is_file: false,
            is_dir: false,
            size: 0,
            modified: None,
        },
        DirectoryEntry {
            name: "far".to_string(),
            is_file: true,
            is_dir: false,
            size: 12,
            modified: Some(i64::MAX),
        },
    ];
    let html = generate_directory_listing("docs", &entries);
    let expected = "<!DOCTYPE html>\n<html>\n<head>\n\
<title>Directory Listing</title>\n\
<style>\n\
body { font-family: Arial, sans-serif; margin: 20px; }\n\
table { border-collapse: collapse; width: 100%; }\n\
th, td { border: 1px solid #ddd; padding: 8px; text-align: left; }\n\
th { background-color: #f2f2f2; }\n\
a { text-decoration: none; color: #0066cc; }\n\
a:hover { text-decoration: underline; }\n\
</style>\n</head>\n<body>\n\
<h1>Directory Listing: docs</h1>\n\
<table>\n\
<tr><th>Name</th><th>Size</th><th>Modified</th></tr>\n\
<tr><td><a href=\"notes.txt\">notes.txt</a></td><td>1.5 KB</td><td>1970-01-01 00:00:00</td></tr>\n\
<tr><td><a href=\"sub/\">sub/</a></td><td>-</td><td>2015-05-15 00:00:00</td></tr>\n\
<tr><td><a href=\"odd\">odd</a></td><td>-</td><td>-</td></tr>\n\
<tr><td><a href=\"far\">far</a></td><td>12 B</td><td>-</td></tr>\n\
</table>\n</body>\n</html>";
    assert_eq!(html, expected);
    let empty = generate_directory_listing("", &[]);
    assert!(empty.ends_with("<tr><th>Name</th><th>Size</th><th>Modified</th></tr>\n</table>\n</body>\n</html>"));
}

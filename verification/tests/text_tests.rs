use localdoc::docpack::Manifest;
use localdoc::godot::create_godot_manifest;
use localdoc::locate::{is_github_url, parse_github_url, resolve_docpack_path};
use localdoc::mcp::McpServer;
use localdoc::models::DocpackInfo;
use localdoc::text::{dec_string, format_number, truncate_string};

#[test]
fn decimal_rendering_is_exact() {
    assert_eq!(dec_string(0), "0");
    assert_eq!(dec_string(7), "7");
    assert_eq!(dec_string(42), "42");
    assert_eq!(dec_string(90210), "90210");
}

#[test]
fn thousands_grouping_inserts_commas_from_the_right() {
    assert_eq!(format_number(0), "0");
    assert_eq!(format_number(999), "999");
    assert_eq!(format_number(1000), "1,000");
    assert_eq!(format_number(1234567), "1,234,567");
    assert_eq!(format_number(1000000), "1,000,000");
    assert_eq!(format_number(12005), "12,005");
}

#[test]
fn truncation_keeps_short_strings_and_cuts_long_ones() {
    assert_eq!(truncate_string("hi", 10), "hi");
    assert_eq!(truncate_string("hello world", 11), "hello world");
    assert_eq!(truncate_string("hello world", 8), "hello...");
    assert_eq!(truncate_string("hello", 2), "...");
}

#[test]
fn bare_names_resolve_into_the_package_directory() {
    assert_eq!(
        resolve_docpack_path("mylib", "/home/u/.localdoc/docpacks"),
        "/home/u/.localdoc/docpacks/mylib.docpack"
    );
    assert_eq!(
        resolve_docpack_path("mylib.docpack", "/home/u/.localdoc/docpacks"),
        "/home/u/.localdoc/docpacks/mylib.docpack"
    );
    // anything with a separator is taken as given
    assert_eq!(resolve_docpack_path("./a/b.docpack", "/dir"), "./a/b.docpack");
    assert_eq!(resolve_docpack_path("/abs/path", "/dir"), "/abs/path");
    assert_eq!(resolve_docpack_path("win\\path", "/dir"), "win\\path");
}

#[test]
fn github_urls_are_recognized() {
    assert!(is_github_url("https://github.com/owner/repo"));
    assert!(is_github_url("http://github.com/owner/repo"));
    assert!(is_github_url("https://www.github.com/owner/repo"));
    assert!(is_github_url("http://www.github.com/owner/repo"));
    assert!(!is_github_url("https://example.com/owner/repo"));
    assert!(!is_github_url("owner/repo"));
}

#[test]
fn repository_urls_parse_into_archive_urls() {
    assert_eq!(
        parse_github_url("https://github.com/owner/repo"),
        Ok("https://github.com/owner/repo/archive/refs/heads/main.zip".to_string())
    );
    // trailing slashes are dropped first
    assert_eq!(
        parse_github_url("https://github.com/owner/repo//"),
        Ok("https://github.com/owner/repo/archive/refs/heads/main.zip".to_string())
    );
}

#[test]
fn short_urls_are_rejected() {
    let err = parse_github_url("https://github.com/owner").unwrap_err();
    assert_eq!(err, "Invalid GitHub URL format. Expected: https://github.com/owner/repo");
    assert!(parse_github_url("https://github.com/").is_err());
}

#[test]
fn package_names_resolve_with_underscores() {
    let server = McpServer::new("/pkgs".to_string());
    assert_eq!(server.resolve_package_path("user:repo"), "/pkgs/user_repo.docpack");
    assert_eq!(server.resolve_package_path("plain"), "/pkgs/plain.docpack");
    assert_eq!(server.resolve_package_path("a:b:c"), "/pkgs/a_b_c.docpack");
}

#[test]
fn godot_manifest_carries_the_fixed_tool() {
    let m = create_godot_manifest("4.2");
    assert_eq!(m.tool.name, "godot");
    assert_eq!(m.tool.version, "4.2");
    assert_eq!(m.tool.ecosystem, "game-engine");
    assert_eq!(m.metadata.entry_count, 0);
    assert_eq!(m.metadata.content_hash, "");
}

#[test]
fn manifest_new_copies_its_arguments() {
    let m = Manifest::new("tool", "1.0", "native");
    assert_eq!(m.tool.name, "tool");
    assert_eq!(m.tool.version, "1.0");
    assert_eq!(m.tool.ecosystem, "native");
}

#[test]
fn docpack_info_is_plain_data() {
    let info = DocpackInfo {
        path: "/p".to_string(),
        name: "n".to_string(),
        version: "1".to_string(),
        ecosystem: "e".to_string(),
        entry_count: 3,
    };
    assert_eq!(info.clone(), info);
}

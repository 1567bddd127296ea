use meowdiff::util::{
    compute_project_id, digest_to_hex, hash_bytes, relative_path, short_id, tool_version,
};

#[test]
fn hash_of_empty_input_is_known() {
    assert_eq!(
        hash_bytes(b""),
        "af1349b9f5f9a1a6a0404dea36dcc9499bcb25c9adc112b7cc9a93cae41f3262"
    );
}

#[test]
fn hash_is_hex_of_blake3() {
    let data = b"hello\n";
    let expected = hex::encode(blake3::hash(data).as_bytes());
    assert_eq!(hash_bytes(data), expected);
    assert_eq!(hash_bytes(data).len(), 64);
    assert_ne!(hash_bytes(b"hello\n"), hash_bytes(b"hello"));
}

#[test]
fn hex_is_lowercase_high_nibble_first() {
    assert_eq!(digest_to_hex(&[0x00, 0x0f, 0xf0, 0xab, 0x10]), "000ff0ab10");
    assert_eq!(digest_to_hex(&[]), "");
}

#[test]
fn short_id_is_first_twelve_digits() {
    assert_eq!(
        short_id(&[0x01, 0x23, 0x45, 0x67, 0x89, 0xab, 0xcd, 0xef]),
        "0123456789ab"
    );
    assert_eq!(short_id(&[0x01, 0x23, 0x45, 0x67, 0x89, 0xab]), "0123456789ab");
    assert_eq!(short_id(&[0xde, 0xad]), "dead");
    assert_eq!(short_id(&[]), "");
}

#[test]
fn project_id_is_prefix_of_path_hash() {
    let root = "/home/user/project";
    let id = compute_project_id(root);
    assert_eq!(id.len(), 12);
    assert_eq!(id, &hash_bytes(root.as_bytes())[..12]);
    assert_eq!(id, compute_project_id(root));
    assert_ne!(id, compute_project_id("/home/user/other"));
}

#[test]
fn relative_path_strips_the_root() {
    assert_eq!(relative_path("/p", "/p/a.txt"), Some("a.txt".to_string()));
    assert_eq!(relative_path("/p", "/p/d/a.txt"), Some("d/a.txt".to_string()));
    assert_eq!(relative_path("/p", "/p"), Some(String::new()));
    assert_eq!(relative_path("/p", "/p/"), Some(String::new()));
    assert_eq!(relative_path("/p/", "/p/a"), Some("a".to_string()));
    assert_eq!(relative_path("/", "/a"), Some("a".to_string()));
    assert_eq!(relative_path("/p", "/p//a"), Some("a".to_string()));
    assert_eq!(relative_path("/p/", "/p"), Some(String::new()));
    assert_eq!(relative_path("/p", "/p/./a/b"), Some("a/b".to_string()));
    assert_eq!(relative_path("", "a"), Some("a".to_string()));
    assert_eq!(relative_path(".", "./a"), Some("a".to_string()));
}

#[test]
fn relative_path_is_what_std_strips() {
    let cases = [
        ("/p", "/p/a.txt"),
        ("/p", "/p"),
        ("/p", "/q"),
        ("/p/", "/p/x/"),
        ("p", "p/a"),
        ("/p", "p/a"),
        ("/p/q", "/p/q/../r"),
    ];
    for (root, path) in cases {
        let expected = std::path::Path::new(path)
            .strip_prefix(root)
            .ok()
            .map(|p| p.to_string_lossy().to_string());
        assert_eq!(relative_path(root, path), expected, "{:?} below {:?}", path, root);
    }
}

#[test]
fn relative_path_refuses_other_trees() {
    assert_eq!(relative_path("/p", "/q/a.txt"), None);
    assert_eq!(relative_path("/p", "/pq/a.txt"), None);
    assert_eq!(relative_path("/p/q", "/p"), None);
    assert_eq!(relative_path("/p", ""), None);
}

#[test]
fn tool_version_is_the_crate_version() {
    assert_eq!(tool_version(), "0.1.0");
}

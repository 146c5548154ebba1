use manga_extensions::naming::{extension_file_name, id_file_name, repository_id, slug};

#[test]
fn slug_maps_reserved_characters_and_trims() {
    assert_eq!(slug(" A/B://Name "), "a_b___name");
}

#[test]
fn slug_keeps_spaces_as_dashes() {
    assert_eq!(slug("My Manga Source"), "my-manga-source");
    assert_eq!(slug("a*b?c\"d<e>f|g\\h"), "a_b_c_d_e_f_g_h");
}

#[test]
fn slug_of_symbols_only_is_unknown() {
    assert_eq!(slug("!!! ???"), "unknown");
    assert_eq!(slug(""), "unknown");
    assert_eq!(slug("-_-"), "unknown");
}

#[test]
fn slug_is_deterministic_and_trimmed() {
    for name in [" A/B://Name ", "__x__", " - Manga Dex - ", "Ünïcode Name"] {
        let a = slug(name);
        assert_eq!(a, slug(name));
        assert!(!a.is_empty());
        assert!(!a.starts_with('-') && !a.starts_with('_'));
        assert!(!a.ends_with('-') && !a.ends_with('_'));
    }
    assert_eq!(slug(" - Manga Dex - "), "manga-dex");
}

#[test]
fn slug_keeps_letters_and_digits_of_any_script() {
    assert_eq!(slug("ÄB"), "äb");
    assert_eq!(slug("Ünïcode Name 2"), "ünïcode-name-2");
    assert_eq!(slug("a!b#c"), "a_b_c");
}

#[test]
fn repository_id_is_prefixed_timestamp() {
    assert_eq!(repository_id(1700000000), "repo_1700000000");
    assert_eq!(repository_id(0), "repo_0");
    assert_eq!(repository_id(7), "repo_7");
    assert_eq!(repository_id(-12), "repo_-12");
    assert_eq!(repository_id(i64::MAX), format!("repo_{}", i64::MAX));
    assert_eq!(repository_id(i64::MIN), format!("repo_{}", i64::MIN));
}

#[test]
fn file_names() {
    assert_eq!(id_file_name("repo_5"), "repo_5.json");
    assert_eq!(extension_file_name("Manga Dex", "mdx"), "manga-dex-mdx.json");
    assert_eq!(extension_file_name("", "ext_3"), "unknown-ext_3.json");
}

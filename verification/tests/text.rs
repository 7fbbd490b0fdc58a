use bvm::commands::env::render_env_snippet;
use bvm::text::{contains, ends_with, same_text, starts_with};

#[test]
fn text_tests() {
    assert!(starts_with("bun-v1.0", "bun-v"));
    assert!(starts_with("abc", ""));
    assert!(!starts_with("ab", "abc"));
    assert!(ends_with("x/bun", "/bun"));
    assert!(!ends_with("bun", "/bun"));
    assert!(contains("release bun-v1", "bun-v"));
    assert!(!contains("release", "bun-v"));
    assert!(same_text("héllo", "héllo"));
    assert!(!same_text("hello", "hell"));
}

#[test]
fn replace_like_std() {
    for s in ["{data_dir}{data_dir}", "{data_{data_dir}}", "", "héé {data_dir", "x{data_dir}y{data_dir}z"] {
        for to in ["", "/d", "{data_dir}"] {
            assert_eq!(render_env_snippet(s, to), s.replace("{data_dir}", to));
        }
    }
}

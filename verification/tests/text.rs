use cargo_workspaces::text::{
    contains_line, replace_chars, str_chars, str_contains, str_eq, str_le,
};

#[test]
fn substring_search() {
    assert!(str_contains("   Uploading alpha v1.0.0", "Uploading"));
    assert!(!str_contains("Upload", "Uploading"));
    assert!(str_contains("anything", ""));
    assert!(!str_contains("", "x"));
}

#[test]
fn replacement_is_left_to_right_and_non_overlapping() {
    let s = str_chars("%n and %n, even %%n");
    let pat = str_chars("%n");
    let rep = str_chars("alpha");
    assert_eq!(
        replace_chars(&s, &pat, &rep),
        str_chars("alpha and alpha, even %alpha")
    );
}

#[test]
fn replacement_with_empty_pattern_keeps_the_text() {
    let s = str_chars("abc");
    let pat = str_chars("");
    let rep = str_chars("x");
    assert_eq!(replace_chars(&s, &pat, &rep), str_chars("abc"));
}

#[test]
fn line_containment_requires_full_lines() {
    let hay = str_chars("v1.0.0\nv1.2.3\nlast");
    assert!(contains_line(&hay, &str_chars("v1.2.3")));
    assert!(contains_line(&hay, &str_chars("v1.0.0")));
    assert!(contains_line(&hay, &str_chars("last")));
    assert!(!contains_line(&hay, &str_chars("v1.2")));
    assert!(!contains_line(&hay, &str_chars("1.2.3")));
}

#[test]
fn string_equality_and_order() {
    assert!(str_eq("same", "same"));
    assert!(!str_eq("same", "sam"));
    assert!(str_le("alpha", "beta"));
    assert!(str_le("alpha", "alpha"));
    assert!(!str_le("beta", "alpha"));
    assert!(str_le("alp", "alpha"));
}

use memex::fs::{expand_home_input, slugify, title_from_path};

#[test]
fn test_slugify() {
    assert_eq!(slugify("My Cool Note"), "my-cool-note.md");
    assert_eq!(slugify("hello world"), "hello-world.md");
    assert_eq!(slugify("Already-Slug"), "already-slug.md");
    assert_eq!(slugify("  spaces  "), "spaces.md");
    assert_eq!(slugify("special!@#chars"), "specialchars.md");
}

#[test]
fn test_title_from_path() {
    assert_eq!(title_from_path("/notes/my-note.md"), "my-note");
    assert_eq!(title_from_path("untitled.md"), "untitled");
}

#[test]
fn slug_collapses_and_trims_hyphens() {
    assert_eq!(slugify("a -- b__c"), "a-b-c.md");
    assert_eq!(slugify("---"), ".md");
    assert_eq!(slugify(""), ".md");
    assert_eq!(slugify("Ünïcode Títle"), "Ünïcode-títle.md");
}

#[test]
fn title_edge_cases() {
    assert_eq!(title_from_path("/"), "untitled");
    assert_eq!(title_from_path("notes/.."), "untitled");
    assert_eq!(title_from_path("notes/.bashrc"), ".bashrc");
    assert_eq!(title_from_path("a/b.tar.gz"), "b.tar");
    assert_eq!(title_from_path("dir/note.md/"), "note");
    assert_eq!(title_from_path("dir/./"), "dir");
    assert_eq!(title_from_path(""), "untitled");
}

#[test]
fn typed_paths_expand_the_home_directory() {
    assert_eq!(expand_home_input("~", Some("/home/u")), "/home/u");
    assert_eq!(expand_home_input("~/", Some("/home/u")), "/home/u");
    assert_eq!(expand_home_input("~/notes", Some("/home/u")), "/home/u/notes");
    assert_eq!(expand_home_input("~notes", Some("/home/u/")), "/home/u/notes");
    assert_eq!(expand_home_input("~//x", Some("/h")), "/x");
    assert_eq!(expand_home_input("~/x", None), "~/x");
    assert_eq!(expand_home_input("/tmp/v", Some("/h")), "/tmp/v");
}

#[test]
fn a_slug_made_from_its_own_stem_is_the_same() {
    for title in ["My Cool Note", "  --Odd__Title!! ", "Ünïcode Wörds 42", "a -- b__c"] {
        let slug = slugify(title);
        assert!(slug.ends_with(".md"));
        let stem = &slug[..slug.len() - 3];
        assert!(!stem.starts_with('-') && !stem.ends_with('-') && !stem.contains("--"));
        assert!(!stem.chars().any(|c| c.is_ascii_uppercase()));
        assert_eq!(slugify(stem), slug);
    }
}

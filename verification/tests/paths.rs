use ssg::paths::{destination, path_is_absolute, reference};

#[test]
fn absolute_paths_start_at_the_root() {
    assert!(path_is_absolute("/index.html"));
    assert!(path_is_absolute("/"));
    assert!(path_is_absolute("/mobs/alpha.html"));
}

#[test]
fn other_paths_are_not_absolute() {
    assert!(!path_is_absolute(""));
    assert!(!path_is_absolute("index.html"));
    assert!(!path_is_absolute("mobs/alpha.html"));
    assert!(!path_is_absolute("./index.html"));
}

#[test]
fn index_file_is_served_at_the_root() {
    assert_eq!(reference("/index.html"), "/");
}

#[test]
fn other_files_are_served_at_their_path() {
    assert_eq!(reference("/about.html"), "/about.html");
    assert_eq!(reference("/mobs/alpha.html"), "/mobs/alpha.html");
    assert_eq!(reference("/mobs/index.html"), "/mobs/index.html");
    assert_eq!(reference("/index.htm"), "/index.htm");
    assert_eq!(reference("//index.html"), "//index.html");
}

#[test]
fn destination_joins_root_and_path() {
    assert_eq!(destination("out", "/index.html"), "out/index.html");
    assert_eq!(
        destination(".vercel/output/static", "/mobs/alpha.html"),
        ".vercel/output/static/mobs/alpha.html"
    );
}

#[test]
fn destination_adds_no_second_separator() {
    assert_eq!(destination("out/", "/index.html"), "out/index.html");
    assert_eq!(destination("/", "/index.html"), "/index.html");
}

#[test]
fn destination_under_an_empty_root_is_relative() {
    assert_eq!(destination("", "/index.html"), "index.html");
    assert_eq!(destination("", "/mobs/alpha.html"), "mobs/alpha.html");
}

#[test]
fn destination_counts_characters_not_bytes() {
    assert_eq!(destination("sité", "/café/menü.html"), "sité/café/menü.html");
    assert_eq!(destination("été/", "/ñ.html"), "été/ñ.html");
}

#[test]
fn destination_of_a_relative_path_keeps_it_whole() {
    assert_eq!(destination("out", "index.html"), "out/index.html");
    assert_eq!(destination("", "index.html"), "index.html");
}

#[test]
fn different_paths_have_different_destinations() {
    let paths = ["/a.html", "/b.html", "/a/b.html", "/a", "/a.htm"];
    for root in ["", "out", "out/"] {
        for (i, first) in paths.iter().enumerate() {
            for (j, second) in paths.iter().enumerate() {
                if i != j {
                    assert_ne!(destination(root, first), destination(root, second));
                }
            }
        }
    }
}

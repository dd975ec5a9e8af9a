use std::path::Path;

use yeet::path::file_name;

#[test]
fn file_name_of_plain_paths() {
    assert_eq!(file_name("db"), Some("db".to_owned()));
    assert_eq!(file_name("tmp/foo.txt"), Some("foo.txt".to_owned()));
    assert_eq!(file_name("/etc/yeet/secret.d/12"), Some("12".to_owned()));
    assert_eq!(file_name("/usr/bin/"), Some("bin".to_owned()));
    assert_eq!(file_name("foo.txt/."), Some("foo.txt".to_owned()));
    assert_eq!(file_name("foo.txt/.//"), Some("foo.txt".to_owned()));
    assert_eq!(file_name("../secret"), Some("secret".to_owned()));
    assert_eq!(file_name("..."), Some("...".to_owned()));
    assert_eq!(file_name(".hidden"), Some(".hidden".to_owned()));
}

#[test]
fn paths_without_a_file_name() {
    assert_eq!(file_name(""), None);
    assert_eq!(file_name("/"), None);
    assert_eq!(file_name("//"), None);
    assert_eq!(file_name("."), None);
    assert_eq!(file_name("./"), None);
    assert_eq!(file_name(".."), None);
    assert_eq!(file_name("foo.txt/.."), None);
    assert_eq!(file_name("a/b/../"), None);
    assert_eq!(file_name("a/.././"), None);
}

#[test]
fn file_name_agrees_with_std() {
    let pieces = ["", "a", ".", "..", "...", "ä", "b.c", " "];
    for first in pieces {
        for second in pieces {
            for third in pieces {
                for lead in ["", "/"] {
                    for trail in ["", "/", "//", "/."] {
                        let path = format!("{lead}{first}/{second}/{third}{trail}");
                        let expected = Path::new(&path)
                            .file_name()
                            .map(|name| name.to_string_lossy().into_owned());
                        assert_eq!(file_name(&path), expected, "{path:?}");
                    }
                }
            }
        }
    }
}

use hpmq::instructions::split_last_slash;
use hpmq::tar_file::TarFileTy;
use std::path::PathBuf;

fn groups(s: &str) -> Option<(String, String)> {
    split_last_slash(s)
}

#[test]
fn test_is_regex() {
    {
        let res = groups("/").unwrap();
        assert_eq!(res.0.as_str(), "");
        assert_eq!(res.1.as_str(), "");
    }
    {
        let res = groups("/abc/").unwrap();
        assert_eq!(res.0.as_str(), "/abc");
        assert_eq!(res.1.as_str(), "");
    }
    {
        let res = groups("/abc.txt").unwrap();
        assert_eq!(res.0.as_str(), "");
        assert_eq!(res.1.as_str(), "abc.txt");
    }
    {
        let res = groups("/config/abc.txt").unwrap();
        assert_eq!(res.0.as_str(), "/config");
        assert_eq!(res.1.as_str(), "abc.txt");
    }
    {
        assert!(groups("abc").is_none());
    }
    {
        let res = groups("config/abc.txt").unwrap();
        assert_eq!(res.0.as_str(), "config");
        assert_eq!(res.1.as_str(), "abc.txt");
    }
}

#[test]
fn test_is_dir() {
    let path: PathBuf = "C:\\Users\\DELL\\AppData".into();
    println!("{:?}", path.is_dir());
    println!("{:?}", path.join("Local/Temp/").is_dir());
    let path: PathBuf = "C:\\Users\\DELL\\AppData\\".into();
    println!("{:?}", path.is_dir());
    println!("{:?}", path.join("Local/Temp/").is_dir());
    println!("{:?}", path.join("/Local/Temp/").is_dir());
}

fn is_match(s: &str) -> bool {
    matches!(TarFileTy::classify(s.to_string()), TarFileTy::Delete(_))
}

fn replace(s: &str) -> String {
    match TarFileTy::classify(s.to_string()) {
        TarFileTy::Delete(p) => p,
        TarFileTy::Update(p) => p,
    }
}

#[test]
fn test_regex2() {
    assert_eq!(is_match("Cargo.toml"), false);
    assert_eq!(is_match(".wh.dir"), true);
    assert_eq!(is_match("dir/.wh.Cargo.toml.copy"), true);
    assert_eq!(is_match("dir/dir2/Cargo.toml.copy"), false);
    assert_eq!(is_match("dir/dir2/.wh.Cargo.toml.copy"), true);

    assert_eq!(replace("Cargo.toml"), "Cargo.toml");
    assert_eq!(replace(".wh.dir"), "dir");
    assert_eq!(replace("dir/.wh.Cargo.toml.copy"), "dir/Cargo.toml.copy");
    assert_eq!(replace("dir/dir2/Cargo.toml.copy"), "dir/dir2/Cargo.toml.copy");
    assert_eq!(replace("dir/dir2/.wh.Cargo.toml.copy"), "dir/dir2/Cargo.toml.copy");
}

#[test]
fn whiteout_needs_a_name_after_the_prefix() {
    assert!(!is_match(".wh."));
    assert!(!is_match("dir/foo.wh.bar"));
    assert_eq!(replace("dir/foo.wh.bar"), "dir/foo.wh.bar");
}

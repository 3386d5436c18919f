use minty::cli::file::File;
use std::path::PathBuf;

#[test]
fn a_new_file_holds_the_default_data() {
    let f: File<Vec<u32>> = File::new("config", PathBuf::from("/etc/minty/minty.toml"));
    assert!(f.data().is_empty());
    assert_eq!(f.describe(), "config");
    assert_eq!(f.path_buf(), &PathBuf::from("/etc/minty/minty.toml"));
}

#[test]
fn a_file_names_itself_by_description_and_path() {
    let f: File<u32> = File::new("credentials", PathBuf::from("/home/me/.minty/credentials"));
    assert_eq!(f.to_text(), "credentials file '/home/me/.minty/credentials'");
    let g = File::with_data("config", PathBuf::from("rel/minty.toml"), 7u32);
    assert_eq!(*g.data(), 7);
    assert_eq!(g.to_text(), "config file 'rel/minty.toml'");
}

#[test]
fn relative_paths_are_taken_from_the_files_directory() {
    let f: File<u32> = File::new("config", PathBuf::from("/etc/minty/minty.toml"));
    assert_eq!(f.relative(&PathBuf::from("cookies.json")), PathBuf::from("/etc/minty/cookies.json"));
    assert_eq!(f.relative(&PathBuf::from("/tmp/cookies.json")), PathBuf::from("/tmp/cookies.json"));
    let bare: File<u32> = File::new("config", PathBuf::from("minty.toml"));
    assert_eq!(bare.try_relative(&PathBuf::from("cookies.json")), Some(PathBuf::from("cookies.json")));
    let root: File<u32> = File::new("config", PathBuf::from("/"));
    assert_eq!(root.try_relative(&PathBuf::from("cookies.json")), None);
    assert_eq!(root.try_relative(&PathBuf::from("/c")), Some(PathBuf::from("/c")));
}

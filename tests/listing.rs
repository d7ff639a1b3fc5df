use rust_ssh_sftp::listing::{sort_listing, FileInfo};

fn entry(name: &str, is_dir: bool) -> FileInfo {
    FileInfo { name: name.to_string(), path: format!("/srv/{}", name), size: 1, is_dir, permissions: 0o644 }
}

#[test]
fn directories_come_first_then_names() {
    let files = vec![
        entry("zeta.txt", false),
        entry("beta", true),
        entry("alpha.txt", false),
        entry("Alpha", true),
    ];
    let names: Vec<String> = sort_listing(files).into_iter().map(|f| f.name).collect();
    assert_eq!(names, vec!["Alpha", "beta", "alpha.txt", "zeta.txt"]);
}

#[test]
fn empty_listing_stays_empty() {
    assert!(sort_listing(Vec::new()).is_empty());
}

use vylfs::attr::FileKind;
use vylfs::attr::FsError;
use vylfs::attr::ROOT_ID;
use vylfs::engine::VylFs;

const NOW: u64 = 1_700_000_000;

fn fresh() -> VylFs {
    VylFs::new(0, 0, NOW)
}

#[test]
fn listing_of_empty_root() {
    let fs = fresh();
    let rows = fs.readdir(ROOT_ID, 0).expect("root is a directory");
    assert_eq!(rows.len(), 2);
    assert_eq!(rows[0].name, ".");
    assert_eq!(rows[0].ino, ROOT_ID);
    assert_eq!(rows[0].kind, FileKind::Directory);
    assert_eq!(rows[0].cookie, 1);
    assert_eq!(rows[1].name, "..");
    assert_eq!(rows[1].ino, ROOT_ID, "the root's parent is the root itself");
    assert_eq!(rows[1].cookie, 2);
}

#[test]
fn listing_is_complete_and_duplicate_free() {
    let mut fs = fresh();
    let d = fs.mkdir(ROOT_ID, Some("d"), 0o755, NOW).unwrap();
    let f1 = fs.create(d.ino, Some("one"), 0o644, NOW).unwrap();
    let f2 = fs.create(d.ino, Some("two"), 0o644, NOW).unwrap();
    let sub = fs.mkdir(d.ino, Some("sub"), 0o755, NOW).unwrap();
    let rows = fs.readdir(d.ino, 0).unwrap();
    assert_eq!(rows.len(), 5);
    assert_eq!(rows[0].name, ".");
    assert_eq!(rows[0].ino, d.ino);
    assert_eq!(rows[1].name, "..");
    assert_eq!(rows[1].ino, ROOT_ID);
    let mut names: Vec<String> = rows.iter().map(|r| r.name.clone()).collect();
    names.sort();
    assert_eq!(names, vec![".", "..", "one", "sub", "two"]);
    for (i, row) in rows.iter().enumerate() {
        assert_eq!(row.cookie, (i + 1) as u64);
    }
    let by_name = |n: &str| rows.iter().find(|r| r.name == n).unwrap();
    assert_eq!(by_name("one").ino, f1.ino);
    assert_eq!(by_name("one").kind, FileKind::RegularFile);
    assert_eq!(by_name("two").ino, f2.ino);
    assert_eq!(by_name("sub").ino, sub.ino);
    assert_eq!(by_name("sub").kind, FileKind::Directory);
}

#[test]
fn listing_resumes_from_the_cookie() {
    let mut fs = fresh();
    fs.create(ROOT_ID, Some("one"), 0o644, NOW).unwrap();
    fs.create(ROOT_ID, Some("two"), 0o644, NOW).unwrap();
    let all = fs.readdir(ROOT_ID, 0).unwrap();
    assert_eq!(all.len(), 4);
    let rest = fs.readdir(ROOT_ID, 2).unwrap();
    assert_eq!(rest.len(), 2);
    assert_eq!(rest[0].name, all[2].name);
    assert_eq!(rest[0].cookie, 3);
    assert_eq!(rest[1].name, all[3].name);
    assert_eq!(rest[1].cookie, 4);
    let none = fs.readdir(ROOT_ID, 4).unwrap();
    assert!(none.is_empty());
    let past = fs.readdir(ROOT_ID, 100).unwrap();
    assert!(past.is_empty());
}

#[test]
fn listing_errors() {
    let mut fs = fresh();
    let f = fs.create(ROOT_ID, Some("f"), 0o644, NOW).unwrap();
    assert_eq!(fs.readdir(f.ino, 0).unwrap_err(), FsError::NotADirectory);
    assert_eq!(fs.readdir(4242, 0).unwrap_err(), FsError::NotFound);
}

#[test]
fn dotdot_of_a_nested_directory_names_its_parent() {
    let mut fs = fresh();
    let a = fs.mkdir(ROOT_ID, Some("a"), 0o755, NOW).unwrap();
    let b = fs.mkdir(a.ino, Some("b"), 0o755, NOW).unwrap();
    let rows = fs.readdir(b.ino, 0).unwrap();
    assert_eq!(rows[1].name, "..");
    assert_eq!(rows[1].ino, a.ino);
}

use vylfs::attr::FileKind;
use vylfs::attr::FsError;
use vylfs::attr::ROOT_ID;
use vylfs::engine::VylFs;

const UID: u32 = 1000;
const GID: u32 = 1000;
const NOW: u64 = 1_700_000_000;

fn fresh() -> VylFs {
    VylFs::new(UID, GID, NOW)
}

#[test]
fn root_attributes_at_mount_start() {
    let fs = fresh();
    let attr = fs.getattr(ROOT_ID).expect("root must be live");
    assert_eq!(attr.ino, ROOT_ID);
    assert_eq!(attr.kind, FileKind::Directory);
    assert_eq!(attr.size, 4096);
    assert_eq!(attr.blocks, 8);
    assert_eq!(attr.perm, 0o755);
    assert_eq!(attr.nlink, 2);
    assert_eq!(attr.uid, UID);
    assert_eq!(attr.gid, GID);
    assert_eq!(attr.blksize, 4096);
    assert_eq!(fs.ttl_secs(), 1);
}

#[test]
fn create_builds_empty_regular_file() {
    let mut fs = fresh();
    let attr = fs.create(ROOT_ID, Some("x"), 0o644, NOW).expect("create must succeed");
    assert_eq!(attr.kind, FileKind::RegularFile);
    assert_eq!(attr.size, 0);
    assert_eq!(attr.blocks, 0);
    assert_eq!(attr.perm, 0o644);
    assert_eq!(attr.nlink, 1);
    assert_ne!(attr.ino, ROOT_ID);
    let looked = fs.lookup(ROOT_ID, Some("x")).expect("created file must resolve");
    assert_eq!(looked, attr);
}

#[test]
fn create_masks_mode_to_twelve_bits() {
    let mut fs = fresh();
    let attr = fs.create(ROOT_ID, Some("x"), 0o170644, NOW).expect("create must succeed");
    assert_eq!(attr.perm, 0o644);
}

#[test]
fn create_twice_returns_already_exists() {
    let mut fs = fresh();
    fs.create(ROOT_ID, Some("x"), 0o644, NOW).expect("first create must succeed");
    let second = fs.create(ROOT_ID, Some("x"), 0o644, NOW + 1);
    assert_eq!(second, Err(FsError::AlreadyExists));
    let again = fs.mkdir(ROOT_ID, Some("x"), 0o755, NOW + 2);
    assert_eq!(again, Err(FsError::AlreadyExists));
}

#[test]
fn create_without_text_name_is_invalid() {
    let mut fs = fresh();
    assert_eq!(fs.create(ROOT_ID, None, 0o644, NOW), Err(FsError::InvalidName));
    assert_eq!(fs.mkdir(ROOT_ID, None, 0o755, NOW), Err(FsError::InvalidName));
    assert_eq!(fs.unlink(ROOT_ID, None), Err(FsError::InvalidName));
    assert_eq!(fs.rmdir(ROOT_ID, None), Err(FsError::InvalidName));
    assert_eq!(fs.lookup(ROOT_ID, None), Err(FsError::InvalidName));
}

#[test]
fn lookup_missing_returns_not_found() {
    let fs = fresh();
    assert_eq!(fs.lookup(ROOT_ID, Some("missing")), Err(FsError::NotFound));
}

#[test]
fn identifiers_are_monotonic_and_never_reused() {
    let mut fs = fresh();
    let a = fs.create(ROOT_ID, Some("a"), 0o644, NOW).unwrap();
    let b = fs.create(ROOT_ID, Some("b"), 0o644, NOW).unwrap();
    assert!(b.ino > a.ino);
    fs.unlink(ROOT_ID, Some("b")).unwrap();
    let c = fs.create(ROOT_ID, Some("c"), 0o644, NOW).unwrap();
    assert!(c.ino > b.ino, "a removed identifier must not come back");
}

#[test]
fn write_then_read_round_trip() {
    let mut fs = fresh();
    let attr = fs.create(ROOT_ID, Some("x"), 0o644, NOW).unwrap();
    let written = fs.write(attr.ino, 0, b"hello", NOW).unwrap();
    assert_eq!(written, 5);
    let bytes = fs.read(attr.ino, 0, 5).unwrap();
    assert_eq!(bytes, b"hello".to_vec());
}

#[test]
fn read_clamps_and_never_errors_past_the_end() {
    let mut fs = fresh();
    let attr = fs.create(ROOT_ID, Some("x"), 0o644, NOW).unwrap();
    fs.write(attr.ino, 0, b"hello", NOW).unwrap();
    assert_eq!(fs.read(attr.ino, 3, 100).unwrap(), b"lo".to_vec());
    assert_eq!(fs.read(attr.ino, 5, 10).unwrap(), Vec::<u8>::new());
    assert_eq!(fs.read(attr.ino, 50, 10).unwrap(), Vec::<u8>::new());
}

#[test]
fn read_and_write_on_missing_identifier() {
    let mut fs = fresh();
    assert_eq!(fs.read(99, 0, 1), Err(FsError::NotFound));
    assert_eq!(fs.write(99, 0, b"x", NOW), Err(FsError::NotFound));
}

#[test]
fn sparse_write_zero_fills_the_gap() {
    let mut fs = fresh();
    let attr = fs.create(ROOT_ID, Some("x"), 0o644, NOW).unwrap();
    fs.write(attr.ino, 5, b"ab", NOW).unwrap();
    let all = fs.read(attr.ino, 0, 7).unwrap();
    assert_eq!(all, vec![0, 0, 0, 0, 0, b'a', b'b']);
    let gap = fs.read(attr.ino, 0, 5).unwrap();
    assert_eq!(gap, vec![0; 5]);
}

#[test]
fn write_keeps_size_and_blocks_consistent() {
    let mut fs = fresh();
    let attr = fs.create(ROOT_ID, Some("x"), 0o644, NOW).unwrap();
    fs.write(attr.ino, 0, b"hello", NOW + 7).unwrap();
    let a = fs.getattr(attr.ino).unwrap();
    assert_eq!(a.size, 5);
    assert_eq!(a.blocks, 8, "a small file still accounts eight sectors");
    assert_eq!(a.mtime, NOW + 7);
    let big = vec![7u8; 5000];
    fs.write(attr.ino, 0, &big, NOW + 8).unwrap();
    let a = fs.getattr(attr.ino).unwrap();
    assert_eq!(a.size, 5000);
    assert_eq!(a.blocks, 10, "5000 bytes cover ten 512-byte sectors");
}

#[test]
fn overwrite_in_the_middle_keeps_length() {
    let mut fs = fresh();
    let attr = fs.create(ROOT_ID, Some("x"), 0o644, NOW).unwrap();
    fs.write(attr.ino, 0, b"hello world", NOW).unwrap();
    fs.write(attr.ino, 6, b"verus", NOW).unwrap();
    assert_eq!(fs.read(attr.ino, 0, 11).unwrap(), b"hello verus".to_vec());
    assert_eq!(fs.getattr(attr.ino).unwrap().size, 11);
}

#[test]
fn unlink_removes_entry_attributes_and_content() {
    let mut fs = fresh();
    let attr = fs.create(ROOT_ID, Some("x"), 0o644, NOW).unwrap();
    fs.write(attr.ino, 0, b"data", NOW).unwrap();
    fs.unlink(ROOT_ID, Some("x")).expect("unlink must succeed");
    assert_eq!(fs.lookup(ROOT_ID, Some("x")), Err(FsError::NotFound));
    assert_eq!(fs.getattr(attr.ino), Err(FsError::NotFound));
    assert_eq!(fs.read(attr.ino, 0, 4), Err(FsError::NotFound));
}

#[test]
fn unlink_missing_returns_not_found() {
    let mut fs = fresh();
    assert_eq!(fs.unlink(ROOT_ID, Some("ghost")), Err(FsError::NotFound));
}

#[test]
fn rmdir_guards() {
    let mut fs = fresh();
    let dir = fs.mkdir(ROOT_ID, Some("d"), 0o755, NOW).unwrap();
    let file = fs.create(ROOT_ID, Some("f"), 0o644, NOW).unwrap();
    assert_eq!(fs.rmdir(ROOT_ID, Some("f")), Err(FsError::NotADirectory));
    assert_eq!(fs.rmdir(ROOT_ID, Some("ghost")), Err(FsError::NotFound));
    fs.create(dir.ino, Some("inside"), 0o644, NOW).unwrap();
    assert_eq!(fs.rmdir(ROOT_ID, Some("d")), Err(FsError::DirectoryNotEmpty));
    // the refused removal touched nothing
    assert_eq!(fs.getattr(dir.ino).unwrap().ino, dir.ino);
    assert!(fs.lookup(dir.ino, Some("inside")).is_ok());
    assert_eq!(fs.getattr(file.ino).unwrap().ino, file.ino);
}

#[test]
fn scenario_nested_create_write_read_rmdir() {
    let mut fs = fresh();
    let a = fs.mkdir(ROOT_ID, Some("a"), 0o755, NOW).expect("mkdir /a");
    let b = fs.create(a.ino, Some("b"), 0o644, NOW).expect("create /a/b");
    assert_eq!(fs.write(b.ino, 0, b"hello", NOW).unwrap(), 5);
    assert_eq!(fs.read(b.ino, 0, 5).unwrap(), b"hello".to_vec());
    assert_eq!(fs.rmdir(ROOT_ID, Some("a")), Err(FsError::DirectoryNotEmpty));
    fs.unlink(a.ino, Some("b")).expect("unlink /a/b");
    fs.rmdir(ROOT_ID, Some("a")).expect("rmdir /a after it is empty");
    assert_eq!(fs.lookup(ROOT_ID, Some("a")), Err(FsError::NotFound));
}

#[test]
fn name_free_again_after_removal() {
    let mut fs = fresh();
    fs.create(ROOT_ID, Some("x"), 0o644, NOW).unwrap();
    assert_eq!(fs.create(ROOT_ID, Some("x"), 0o644, NOW), Err(FsError::AlreadyExists));
    fs.unlink(ROOT_ID, Some("x")).unwrap();
    fs.create(ROOT_ID, Some("x"), 0o600, NOW).expect("name must be free after unlink");
}

#[test]
fn add_and_remove_entry_as_one_logical_step() {
    let mut fs = fresh();
    assert!(fs.can_allocate());
    let attr = fs.create(ROOT_ID, Some("x"), 0o644, NOW).unwrap();
    fs.unlink(ROOT_ID, Some("x")).unwrap();
    // re-adding a freed record under a new name makes it reachable again,
    // with attributes and an empty buffer inserted together
    fs.add_entry(ROOT_ID, "y", attr).expect("the name is free");
    assert_eq!(fs.lookup(ROOT_ID, Some("y")).unwrap(), attr);
    assert_eq!(fs.read(attr.ino, 0, 10).unwrap(), Vec::<u8>::new());
    fs.remove_entry(attr.ino, ROOT_ID, "y");
    assert_eq!(fs.lookup(ROOT_ID, Some("y")), Err(FsError::NotFound));
    assert_eq!(fs.getattr(attr.ino), Err(FsError::NotFound));
}

#[test]
fn same_name_under_different_parents_is_allowed() {
    let mut fs = fresh();
    let d1 = fs.mkdir(ROOT_ID, Some("d1"), 0o755, NOW).unwrap();
    let d2 = fs.mkdir(ROOT_ID, Some("d2"), 0o755, NOW).unwrap();
    fs.create(d1.ino, Some("same"), 0o644, NOW).expect("first parent");
    fs.create(d2.ino, Some("same"), 0o644, NOW).expect("second parent");
}

use vylfs::attr::FsError;
use vylfs::attr::ROOT_ID;
use vylfs::attr::SetTime;
use vylfs::attr::SetattrRequest;
use vylfs::attr::blocks_for;
use vylfs::engine::VylFs;

const NOW: u64 = 1_700_000_000;

fn fresh() -> VylFs {
    VylFs::new(7, 8, NOW)
}

#[test]
fn block_accounting_formula() {
    assert_eq!(blocks_for(0), 0);
    assert_eq!(blocks_for(1), 8);
    assert_eq!(blocks_for(512), 8);
    assert_eq!(blocks_for(4096), 8);
    assert_eq!(blocks_for(4097), 9);
    assert_eq!(blocks_for(5000), 10);
    assert_eq!(blocks_for(512 * 100), 100);
}

#[test]
fn errno_mapping() {
    assert_eq!(FsError::NotFound.errno(), 2);
    assert_eq!(FsError::AlreadyExists.errno(), 17);
    assert_eq!(FsError::InvalidName.errno(), 22);
    assert_eq!(FsError::NotADirectory.errno(), 20);
    assert_eq!(FsError::DirectoryNotEmpty.errno(), 39);
}

#[test]
fn error_messages() {
    assert!(FsError::NotFound.message().contains("does not exist"));
    assert!(FsError::NotADirectory.message().contains("is not a directory"));
    assert!(FsError::AlreadyExists.message().contains("already exists"));
    assert!(FsError::DirectoryNotEmpty.message().contains("not empty"));
}

#[test]
fn setattr_missing_identifier() {
    let mut fs = fresh();
    let req = SetattrRequest::empty();
    assert_eq!(fs.setattr(31337, req, NOW), Err(FsError::NotFound));
}

#[test]
fn setattr_applies_only_present_fields() {
    let mut fs = fresh();
    let attr = fs.create(ROOT_ID, Some("x"), 0o644, NOW).unwrap();
    let mut req = SetattrRequest::empty();
    req.mode = Some(0o600);
    req.uid = Some(42);
    let updated = fs.setattr(attr.ino, req, NOW + 5).unwrap();
    assert_eq!(updated.perm, 0o600);
    assert_eq!(updated.uid, 42);
    assert_eq!(updated.gid, attr.gid);
    assert_eq!(updated.size, attr.size);
    assert_eq!(updated.atime, attr.atime);
    assert_eq!(updated.mtime, attr.mtime);
    assert_eq!(fs.getattr(attr.ino).unwrap(), updated);
}

#[test]
fn setattr_grows_and_shrinks_content_with_size() {
    let mut fs = fresh();
    let attr = fs.create(ROOT_ID, Some("x"), 0o644, NOW).unwrap();
    fs.write(attr.ino, 0, b"hello world", NOW).unwrap();
    let mut req = SetattrRequest::empty();
    req.size = Some(5);
    let updated = fs.setattr(attr.ino, req, NOW).unwrap();
    assert_eq!(updated.size, 5);
    assert_eq!(updated.blocks, 8);
    assert_eq!(fs.read(attr.ino, 0, 100).unwrap(), b"hello".to_vec());
    let mut req = SetattrRequest::empty();
    req.size = Some(8);
    let updated = fs.setattr(attr.ino, req, NOW).unwrap();
    assert_eq!(updated.size, 8);
    assert_eq!(fs.read(attr.ino, 0, 100).unwrap(), vec![b'h', b'e', b'l', b'l', b'o', 0, 0, 0]);
}

#[test]
fn setattr_resolves_time_markers() {
    let mut fs = fresh();
    let attr = fs.create(ROOT_ID, Some("x"), 0o644, NOW).unwrap();
    let mut req = SetattrRequest::empty();
    req.atime = Some(SetTime::At(123));
    req.mtime = Some(SetTime::Now);
    req.crtime = Some(77);
    req.chgtime = Some(88);
    req.flags = Some(9);
    let updated = fs.setattr(attr.ino, req, NOW + 50).unwrap();
    assert_eq!(updated.atime, 123);
    assert_eq!(updated.mtime, NOW + 50);
    assert_eq!(updated.crtime, 77);
    assert_eq!(updated.ctime, 88);
    assert_eq!(updated.flags, 9);
}

#[test]
fn setattr_size_on_a_directory_keeps_no_buffer() {
    let mut fs = fresh();
    let d = fs.mkdir(ROOT_ID, Some("d"), 0o755, NOW).unwrap();
    let mut req = SetattrRequest::empty();
    req.size = Some(1024);
    let updated = fs.setattr(d.ino, req, NOW).unwrap();
    assert_eq!(updated.size, 1024);
    assert_eq!(updated.blocks, 8);
    assert_eq!(fs.read(d.ino, 0, 10), Err(FsError::NotFound));
}

use vylfs::attr::FsError;
use vylfs::directory::validate_dir;
use vylfs::inode::generate;

#[test]
fn test_validate_dir_valid_directory() {
    let result = validate_dir(true, true);
    assert!(result.is_ok(), "Expected Ok(()), but got {:?}", result);
}

#[test]
fn test_validate_dir_is_file() {
    let result = validate_dir(true, false);
    assert!(result.is_err(), "Expected an error, but got Ok(())");

    let err = result.unwrap_err();
    assert_eq!(err, FsError::NotADirectory);
    assert!(err.message().contains("is not a directory"));
}

#[test]
fn test_validate_dir_does_not_exist() {
    let result = validate_dir(false, false);
    assert!(result.is_err(), "Expected an error, but got Ok(())");

    let err = result.unwrap_err();
    assert_eq!(err, FsError::NotFound);
    assert!(err.message().contains("does not exist"));
}

#[test]
fn test_validate_dir_empty_path_does_not_exist() {
    let result = validate_dir(false, true);
    assert!(result.is_err(), "Expected an error, but got Ok(())");

    let err = result.unwrap_err();
    assert_eq!(err, FsError::NotFound);
    assert!(err.message().contains("does not exist"));
}

#[test]
fn generate_is_truncated_nonzero_and_deterministic() {
    let a = generate("/some/path");
    let b = generate("/some/path");
    let c = generate("/other/path");
    assert_eq!(a, b, "the same path always hashes to the same identifier");
    assert!(a >= 1);
    assert!(a <= 0x1000_0000);
    assert!(c >= 1);
    assert!(c <= 0x1000_0000);
    assert!(generate("") >= 1);
}

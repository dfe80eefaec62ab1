//! Tests for the pure extraction behind the path-resolution shell-outs.

use zfileinfo::resolve::{dataset_from_df_line, inode_from_listing, DatasetError, InodeError};

#[test]
fn inode_from_plain_listing() {
    assert_eq!(inode_from_listing("131072 /var/tmp/file\n"), Ok(131072));
    assert_eq!(inode_from_listing("  42 name with spaces"), Ok(42));
}

#[test]
fn inode_errors_are_distinguished() {
    assert_eq!(inode_from_listing(""), Err(InodeError::NoToken));
    assert_eq!(inode_from_listing("   \n"), Err(InodeError::NoToken));
    assert_eq!(inode_from_listing("abc file"), Err(InodeError::BadNumber));
}

#[test]
fn dataset_from_zfs_line() {
    assert_eq!(
        dataset_from_df_line("pool/home zfs 1000 500 500 50% /home"),
        Ok("pool/home".to_string())
    );
}

#[test]
fn dataset_errors_are_distinguished() {
    assert_eq!(dataset_from_df_line("lonely"), Err(DatasetError::TooFewFields));
    assert_eq!(dataset_from_df_line(""), Err(DatasetError::TooFewFields));
    assert_eq!(
        dataset_from_df_line("/dev/sda1 ext4 1000 500 500 50% /"),
        Err(DatasetError::NotZfs("ext4".to_string()))
    );
}

use paniolo::platform::{
    default_runtime_root, existing_dir, is_private, is_real_pid, is_superuser, pid_alive, ExistingDir,
};

#[test]
fn pid_alive_rejects_impossible_pids() {
    assert!(!pid_alive(0, |_| true));
    assert!(!pid_alive(-1, |_| true));
}

#[test]
fn pid_alive_asks_the_probe_for_a_real_pid() {
    assert!(pid_alive(42, |p| p == 42));
    assert!(!pid_alive(42, |_| false));
    assert!(is_real_pid(1));
    assert!(!is_real_pid(0));
}

#[test]
fn runtime_root_is_absolute_and_usable() {
    let root = default_runtime_root(None);
    assert!(root.starts_with('/'), "{root:?} must be absolute");
    assert_eq!(default_runtime_root(Some("C:\\Users\\me\\AppData\\Local\\Temp")), "C:\\Users\\me\\AppData\\Local\\Temp");
}

#[test]
fn superuser_is_uid_zero_off_windows() {
    assert!(is_superuser(0, false));
    assert!(!is_superuser(1000, false));
    assert!(!is_superuser(0, true));
}

#[test]
fn a_private_dir_is_ours_a_directory_and_closed_to_others() {
    // drwx------ owned by uid 501, as lstat reports it (type bits included).
    assert!(is_private(true, 501, 0o040700, 501));
    assert!(!is_private(true, 501, 0o040750, 501));
    assert!(!is_private(true, 501, 0o040701, 501));
    assert!(!is_private(true, 0, 0o040700, 501));
    // A symlink to a private directory is not itself a directory.
    assert!(!is_private(false, 501, 0o120777, 501));
}

#[test]
fn the_writer_tightens_its_own_open_dir_and_refuses_the_rest() {
    assert_eq!(existing_dir(true, 501, 0o040700, 501), ExistingDir::Accept);
    assert_eq!(existing_dir(true, 501, 0o040755, 501), ExistingDir::Tighten);
    assert_eq!(existing_dir(true, 0, 0o040700, 501), ExistingDir::Refuse);
    assert_eq!(existing_dir(false, 501, 0o100600, 501), ExistingDir::Refuse);
    // After `chmod 0700` the tightened directory passes the reader's check.
    let tightened = (0o040755u32 & !0o7777) | 0o700;
    assert!(is_private(true, 501, tightened, 501));
}

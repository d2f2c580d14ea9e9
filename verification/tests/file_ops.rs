use modtoggler::file_ops::{is_cross_device_code, is_cross_device_error, progress_percent};
use modtoggler::file_ops::same_volume;

#[test]
fn test_same_volume_same_drive() {
    let a = "C:/Users/foo/mods";
    let b = "C:/modtoggler/staging";
    assert!(same_volume(a, b));
}

#[test]
fn test_same_volume_different_drives() {
    let a = "C:/Users/foo/mods";
    let b = "D:/modtoggler/staging";
    assert!(!same_volume(a, b));
}

#[test]
fn test_is_cross_device_error_windows() {
    // OS error 17 (ERROR_NOT_SAME_DEVICE on Windows)
    let err = std::io::Error::from_raw_os_error(17);
    assert!(is_cross_device_error(&err));
}

#[test]
fn test_is_cross_device_error_not_found() {
    let err = std::io::Error::from_raw_os_error(2);
    assert!(!is_cross_device_error(&err));
}

#[test]
fn test_cross_drive_fallback() {
    let err_17 = std::io::Error::from_raw_os_error(17);
    assert!(is_cross_device_error(&err_17), "OS 17 must trigger fallback");
    let err_18 = std::io::Error::from_raw_os_error(18);
    assert!(is_cross_device_error(&err_18), "OS 18 must trigger fallback");
    let err_13 = std::io::Error::from_raw_os_error(13);
    assert!(!is_cross_device_error(&err_13), "OS 13 must NOT trigger fallback");
}

#[test]
fn errors_without_os_code_do_not_fall_back() {
    let err = std::io::Error::new(std::io::ErrorKind::Other, "custom");
    assert!(!is_cross_device_error(&err));
    assert!(!is_cross_device_code(None));
    assert!(is_cross_device_code(Some(18)));
    assert!(!is_cross_device_code(Some(19)));
}

#[test]
fn progress_percentages() {
    assert_eq!(progress_percent(0, 1000), 0);
    assert_eq!(progress_percent(500, 1000), 50);
    assert_eq!(progress_percent(1000, 1000), 100);
    assert_eq!(progress_percent(7, 0), 700);
    assert_eq!(progress_percent(1, 3), 33);
}

#[test]
fn same_volume_is_an_equivalence_on_examples() {
    let paths = ["/home/a", "/mnt/b", "rel/c", "rel/d", "other"];
    for a in paths {
        assert!(same_volume(a, a));
        for b in paths {
            assert_eq!(same_volume(a, b), same_volume(b, a));
            for c in paths {
                if same_volume(a, b) && same_volume(b, c) {
                    assert!(same_volume(a, c));
                }
            }
        }
    }
    assert!(same_volume("rel/c", "rel/d"));
    assert!(!same_volume("rel/c", "other"));
    assert!(same_volume("", ""));
}

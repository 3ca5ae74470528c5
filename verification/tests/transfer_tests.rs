use dupfinder::transfer::{is_cross_device, OsFamily};

#[test]
fn nur_exdev_weicht_auf_kopieren_aus() {
    let exdev_unix = std::io::Error::from_raw_os_error(18);
    let exdev_windows = std::io::Error::from_raw_os_error(17);
    assert!(is_cross_device(exdev_unix.raw_os_error(), OsFamily::Unix));
    assert!(is_cross_device(exdev_windows.raw_os_error(), OsFamily::Windows));
    // Eine fehlende Berechtigung soll ein Fehler bleiben, kein zweiter Versuch.
    assert!(!is_cross_device(
        std::io::Error::from_raw_os_error(13).raw_os_error(),
        OsFamily::Unix
    ));
    assert!(!is_cross_device(
        std::io::Error::from_raw_os_error(13).raw_os_error(),
        OsFamily::Windows
    ));
    assert!(!is_cross_device(
        std::io::Error::other("kein OS-Fehler").raw_os_error(),
        OsFamily::Unix
    ));
    assert!(!is_cross_device(
        std::io::Error::other("kein OS-Fehler").raw_os_error(),
        OsFamily::Windows
    ));
}

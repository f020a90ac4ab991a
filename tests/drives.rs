use artifact_cleaner::{
    root_source, select_drives, windows_drive_roots, DriveInfo, HostPlatform, RootCandidate,
    RootSource,
};

#[test]
fn drive_roots_from_a_to_z() {
    let roots = windows_drive_roots();
    assert_eq!(roots.len(), 26);
    assert_eq!(roots[0], "A:\\");
    assert_eq!(roots[2], "C:\\");
    assert_eq!(roots[25], "Z:\\");
}

#[test]
fn root_source_per_platform() {
    assert_eq!(root_source(HostPlatform::Windows), RootSource::DriveLetters);
    assert_eq!(root_source(HostPlatform::MacOs), RootSource::MountDirectory("/Volumes".to_string()));
    assert_eq!(root_source(HostPlatform::Linux), RootSource::MountDirectory("/media".to_string()));
    assert_eq!(root_source(HostPlatform::Other), RootSource::Unsupported);
}

#[test]
fn only_usable_candidates_are_kept() {
    let candidates = vec![
        RootCandidate { path: "/media/usb".to_string(), name: "usb".to_string(), usable: true },
        RootCandidate { path: "/media/file".to_string(), name: "file".to_string(), usable: false },
        RootCandidate { path: "/media/disk".to_string(), name: "disk".to_string(), usable: true },
    ];
    assert_eq!(
        select_drives(&candidates),
        vec![
            DriveInfo { path: "/media/usb".to_string(), name: "usb".to_string() },
            DriveInfo { path: "/media/disk".to_string(), name: "disk".to_string() },
        ]
    );
    assert!(select_drives(&Vec::new()).is_empty());
}

use haj::downgrade::{parse_package_filename, pick_menu_entry};

#[test]
fn archive_name_gives_name_and_version() {
    assert_eq!(
        parse_package_filename("bash-5.2.026-1-x86_64.pkg.tar.zst"),
        Some(("bash", "5.2.026-1"))
    );
    assert_eq!(
        parse_package_filename("lib32-gcc-libs-14.1.1-1-x86_64.pkg.tar.xz"),
        Some(("lib32-gcc-libs", "14.1.1-1"))
    );
}

#[test]
fn other_files_are_not_archives() {
    assert_eq!(parse_package_filename("bash-5.2.026-1-x86_64.pkg.tar.zst.sig"), None);
    assert_eq!(parse_package_filename("bash-5.2-x86_64.pkg.tar.zst"), None);
    assert_eq!(parse_package_filename(".pkg.tar.zst"), None);
}

#[test]
fn menu_answers() {
    assert_eq!(pick_menu_entry("2\n", 3), Some(1));
    assert_eq!(pick_menu_entry(" +1 ", 3), Some(0));
    assert_eq!(pick_menu_entry("0", 3), None);
    assert_eq!(pick_menu_entry("4", 3), None);
    assert_eq!(pick_menu_entry("two", 3), None);
}

#[test]
fn parsed_archive_name_is_rebuilt_from_its_parts() {
    let f = "python-dateutil-2.9.0-2-any.pkg.tar.zst";
    let (name, version) = parse_package_filename(f).unwrap();
    assert_eq!(format!("{name}-{version}-any.pkg.tar.zst"), f);
    assert_eq!(version.matches('-').count(), 1);
}

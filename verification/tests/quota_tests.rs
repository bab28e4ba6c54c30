use yunexal_panel::quota::{
    disk_limit_parts, ext4_pquota_mount_in, split_number_unit, ext4_pquota_mount_list, ext4_quota_commands,
    quota_clear_targets, setquota_clear_args, size_unit_multiplier,
};

fn strings(v: &[&str]) -> Vec<String> {
    v.iter().map(|s| s.to_string()).collect()
}

const MOUNTS: &str = "\
/dev/sda1 / ext4 rw,relatime,prjquota 0 0
proc /proc proc rw 0 0
/dev/sdb1 /srv ext4 rw,prjjquota 0 0
/dev/sdc1 /srv/data ext4 rw,noquota 0 0
/dev/sdd1 /srv/vol ext4 rw,prjquota 0 0
/dev/sde1 /srv/vol xfs rw,prjquota 0 0
/dev/sdb1 /srv ext4 rw,prjquota 0 0
";

#[test]
fn size_strings_split_into_number_and_unit() {
    let (n, u) = disk_limit_parts("  10G ");
    assert_eq!((n.as_str(), u.as_str()), ("10", "g"));
    let (n, u) = disk_limit_parts("1.5 Mb");
    assert_eq!((n.as_str(), u.as_str()), ("1.5", " mb"));
    let (n, u) = disk_limit_parts("abc");
    assert_eq!((n.as_str(), u.as_str()), ("", "abc"));
    let (n, u) = disk_limit_parts("");
    assert_eq!((n.as_str(), u.as_str()), ("", ""));
}

#[test]
fn number_and_unit_split() {
    let (n, u) = split_number_unit("1.5 mb");
    assert_eq!((n.as_str(), u.as_str()), ("1.5", " mb"));
    let (n, u) = split_number_unit("\u{663}g");
    assert_eq!((n.as_str(), u.as_str()), ("\u{663}", "g"));
    let (n, u) = split_number_unit("G10");
    assert_eq!((n.as_str(), u.as_str()), ("", "G10"));
}

#[test]
fn size_units() {
    assert_eq!(size_unit_multiplier("g"), Some(1024 * 1024 * 1024));
    assert_eq!(size_unit_multiplier(" gb "), Some(1024 * 1024 * 1024));
    assert_eq!(size_unit_multiplier("mb"), Some(1024 * 1024));
    assert_eq!(size_unit_multiplier("k"), Some(1024));
    assert_eq!(size_unit_multiplier(""), Some(1));
    assert_eq!(size_unit_multiplier(" "), Some(1));
    assert_eq!(size_unit_multiplier("tb"), None);
    assert_eq!(size_unit_multiplier("x"), None);
}

#[test]
fn longest_project_quota_mount_wins() {
    assert_eq!(ext4_pquota_mount_in(MOUNTS, "/srv/vol/server-1"), Some("/srv/vol".to_string()));
    assert_eq!(ext4_pquota_mount_in(MOUNTS, "/srv/vol"), Some("/srv/vol".to_string()));
    assert_eq!(ext4_pquota_mount_in(MOUNTS, "/srv/volume"), Some("/srv".to_string()));
    assert_eq!(ext4_pquota_mount_in(MOUNTS, "/srv/data/x"), Some("/srv".to_string()));
    assert_eq!(ext4_pquota_mount_in(MOUNTS, "/home/x"), Some("/".to_string()));
    assert_eq!(ext4_pquota_mount_in("proc /proc proc rw 0 0\n", "/proc"), None);
}

#[test]
fn short_mount_lines_are_skipped() {
    let table = "/dev/sda1 / ext4 rw,prjquota 0 0\nbroken line\n";
    assert_eq!(ext4_pquota_mount_in(table, "/x"), Some("/".to_string()));
    assert_eq!(ext4_pquota_mount_list(table), strings(&["/"]));
    let table = "\n/dev/sdb1 /data ext4 rw,prjquota 0 0\n";
    assert_eq!(ext4_pquota_mount_in(table, "/data/v1"), Some("/data".to_string()));
    assert_eq!(ext4_pquota_mount_in(table, "/database"), None);
}

#[test]
fn project_quota_mounts_are_listed_once() {
    assert_eq!(ext4_pquota_mount_list(MOUNTS), strings(&["/", "/srv", "/srv/vol"]));
    assert_eq!(ext4_pquota_mount_list(""), Vec::<String>::new());
}

#[test]
fn clear_targets_put_primary_first_without_repeats() {
    assert_eq!(
        quota_clear_targets(Some("/srv".to_string()), strings(&["/", "/srv", "/srv/vol", "/"])),
        strings(&["/srv", "/", "/srv/vol"])
    );
    assert_eq!(quota_clear_targets(None, strings(&["/a", "/a"])), strings(&["/a"]));
    assert_eq!(quota_clear_targets(None, vec![]), Vec::<String>::new());
}

#[test]
fn quota_command_arguments() {
    let c = ext4_quota_commands("/srv/vol/s1", "/srv/vol", 42, 1025);
    assert_eq!(c.limit_kb, 2);
    assert_eq!(c.chattr_args, strings(&["+P", "-p", "42", "/srv/vol/s1"]));
    assert_eq!(c.setquota_args, strings(&["-P", "42", "0", "2", "0", "0", "/srv/vol"]));
    assert_eq!(ext4_quota_commands("/v", "/", 0, 0).limit_kb, 0);
    assert_eq!(ext4_quota_commands("/v", "/", 0, 10 * 1024 * 1024 * 1024).limit_kb, 10 * 1024 * 1024);
    assert_eq!(setquota_clear_args("/srv", 7), strings(&["-P", "7", "0", "0", "0", "0", "/srv"]));
}

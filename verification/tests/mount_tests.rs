use volumetrik::mount::{mount_matches_str, resolve, resolve_or_first, VolumeInfo};

fn vol(mount: &str, total: u64, avail: u64) -> VolumeInfo {
    VolumeInfo { mount_point: mount.to_string(), total_bytes: total, available_bytes: avail }
}

#[test]
fn longest_prefix_wins() {
    let volumes = vec![vol("/", 1000, 500), vol("/mnt/data", 2000, 900)];
    let r = resolve("/mnt/data/sub/file", &volumes).unwrap();
    assert_eq!(r.mount_point, "/mnt/data");
    assert_eq!(r.total_bytes, 2000);
    assert_eq!(r.available_bytes, 900);
}

#[test]
fn root_matches_when_nothing_longer() {
    let volumes = vec![vol("/", 1000, 500), vol("/mnt/data", 2000, 900)];
    let r = resolve("/var/log/messages", &volumes).unwrap();
    assert_eq!(r.mount_point, "/");
}

#[test]
fn component_boundary_respected() {
    // a mount at /var must not capture /var2
    assert!(mount_matches_str("/var", "/var/x"));
    assert!(!mount_matches_str("/var", "/var2/x"));
    assert!(mount_matches_str("/var", "/var"));
    assert!(mount_matches_str("/var/", "/var/x"));

    let volumes = vec![vol("/var", 10, 5)];
    assert!(resolve("/var2/x", &volumes).is_none());
}

#[test]
fn no_match_returns_none() {
    let volumes = vec![vol("/mnt/data", 10, 5)];
    assert!(resolve("/home/user", &volumes).is_none());
    assert!(resolve("/anything", &Vec::new()).is_none());
}

#[test]
fn ties_keep_first() {
    let volumes = vec![vol("/mnt", 1, 11), vol("/mnt", 2, 22)];
    let r = resolve("/mnt/file", &volumes).unwrap();
    assert_eq!(r.total_bytes, 1);
    assert_eq!(r.available_bytes, 11);
}

#[test]
fn fallback_takes_first_volume() {
    let volumes = vec![vol("/mnt/data", 7, 3), vol("/srv", 8, 4)];
    // nothing matches, so the explicit fallback picks the first volume
    let r = resolve_or_first("/elsewhere", &volumes).unwrap();
    assert_eq!(r.mount_point, "/mnt/data");
    // a match still wins over the fallback
    let r2 = resolve_or_first("/srv/x", &volumes).unwrap();
    assert_eq!(r2.mount_point, "/srv");
    // no volumes at all: nothing to fall back to
    assert!(resolve_or_first("/x", &Vec::new()).is_none());
}

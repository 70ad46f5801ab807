use advcache::footprint::{cgroup_memory_paths, footprint_from_status, parse_memory_current, statm_footprint, statm_resident_pages};
use advcache::policy::Policy;

#[test]
fn status_sums_rss_and_swap() {
    let status = "Name:\tcache\nVmRSS:\t  2048 kB\nVmSwap:\t  16 kB\nThreads:\t4\n";
    assert_eq!(footprint_from_status(status), Some((2048 + 16) * 1024));
    let only_rss = "VmRSS: 10 kB\r\nOther: 1\n";
    assert_eq!(footprint_from_status(only_rss), Some(10 * 1024));
    assert_eq!(footprint_from_status("VmSwap: 10 kB\n"), None);
    assert_eq!(footprint_from_status(""), None);
    let later_rss = "VmRSS: bad kB\nVmRSS: 3 kB";
    assert_eq!(footprint_from_status(later_rss), Some(3 * 1024));
    let first_wins = "VmRSS: 1 kB\nVmSwap: 2 kB\nVmRSS: 100 kB\n";
    assert_eq!(footprint_from_status(first_wins), Some(3 * 1024));
}

#[test]
fn statm_second_field() {
    assert_eq!(statm_resident_pages("1000 250 30 1 0 2 0\n"), Some(250));
    assert_eq!(statm_resident_pages("1000"), None);
    assert_eq!(statm_resident_pages("1000 x"), None);
    assert_eq!(statm_footprint(250, 4096), 250 * 4096);
    assert_eq!(statm_footprint(250, 0), 250 * 4096);
    assert_eq!(statm_footprint(3, 16384), 3 * 16384);
}

#[test]
fn memory_current_is_trimmed() {
    assert_eq!(parse_memory_current(" 12345\n"), Some(12345));
    assert_eq!(parse_memory_current("max\n"), None);
    assert_eq!(parse_memory_current("   "), None);
}

#[test]
fn cgroup_paths() {
    let mountinfo = "22 1 0:20 / /sys/fs/cgroup rw,nosuid - cgroup2 cgroup2 rw\n30 1 8:1 / / rw - ext4 /dev/sda1 rw\n";
    let cgroup = "0::/system.slice/app.service\n";
    assert_eq!(
        cgroup_memory_paths(mountinfo, cgroup),
        vec!["/sys/fs/cgroup/system.slice/app.service/memory.current".to_string()]
    );
    assert!(cgroup_memory_paths(mountinfo, "0::\n1:cpu:/x\n").is_empty());
    assert!(cgroup_memory_paths("30 1 8:1 / / rw - ext4 /dev/sda1 rw\n", cgroup).is_empty());
}

#[test]
fn policy_converts_to_its_code() {
    assert_eq!(u64::from(Policy::Remove), 0);
    assert_eq!(u64::from(Policy::Refresh), 1);
}

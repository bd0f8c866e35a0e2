use super_core::bench::{leftovers, proc_dir, Target};

#[test]
fn target_names() {
    assert_eq!(Target::SuperOss.as_str(), "super-oss");
    assert_eq!(Target::SuperPro.as_str(), "super-pro");
    assert_eq!(Target::Supervisord.as_str(), "supervisord");
    assert_eq!(Target::Pm2.as_str(), "pm2");
}

#[test]
fn leftover_processes() {
    assert!(!leftovers(&[1, 2], &[false, false]));
    assert!(leftovers(&[1, 2], &[false, true]));
    assert!(!leftovers(&[], &[]));
    assert_eq!(proc_dir(4242), "/proc/4242");
}

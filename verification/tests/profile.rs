//! Profiles.

use cust::profile::{OptLevel, ProfileKind, ResolvedProfile};

#[test]
fn dev_defaults() {
    let p = ResolvedProfile::resolve(ProfileKind::Dev, None).unwrap();
    assert_eq!(p.opt_level, OptLevel::O0);
    let flags = p.cflags();
    assert_eq!(flags[0], "-O0");
    assert!(flags.contains(&"-g3".to_string()));
    assert!(flags.contains(&"-gdwarf-5".to_string()));
}

#[test]
fn release_defaults() {
    let p = ResolvedProfile::resolve(ProfileKind::Release, None).unwrap();
    assert_eq!(p.opt_level, OptLevel::O3);
    let flags = p.cflags();
    assert_eq!(flags[0], "-O3");
    assert!(flags.contains(&"-gline-tables-only".to_string()));
}

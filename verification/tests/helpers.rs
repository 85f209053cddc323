//! The randomized working mount point.

use hybrid_mount::util::get_mnt;

#[test]
fn get_mnt_is_a_fresh_name_under_mnt() {
    let p = get_mnt();
    assert_eq!(p.len(), 15);
    assert_eq!(&p[..5], b"/mnt/");
    assert!(p[5..].iter().all(|b| b.is_ascii_alphanumeric()));
}

#[test]
fn get_mnt_draws_real_random_names() {
    // with ten alphanumeric positions, twenty draws collapsing to one name
    // would mean the generator ignores its source
    let names: Vec<Vec<u8>> = (0..20).map(|_| get_mnt()).collect();
    assert!(names.iter().any(|n| n != &names[0]));
}

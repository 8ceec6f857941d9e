use fileserver::resolve::{normalize, resolve};

#[test]
fn parent_segments_never_escape_root() {
    let p = resolve(b"/srv/www", b"/../../etc/passwd");
    assert_eq!(p, b"/srv/www/etc/passwd".to_vec());
}

#[test]
fn normalize_pops_parent_segments() {
    assert_eq!(normalize(b"/a/b/../c"), vec![b"a".to_vec(), b"c".to_vec()]);
}

#[test]
fn normalize_discards_dot_and_empty_segments() {
    assert_eq!(
        normalize(b"a/./b//c/"),
        vec![b"a".to_vec(), b"b".to_vec(), b"c".to_vec()]
    );
}

#[test]
fn extra_parent_segments_are_discarded_at_the_root() {
    assert_eq!(normalize(b".."), Vec::<Vec<u8>>::new());
    assert_eq!(normalize(b"/../.."), Vec::<Vec<u8>>::new());
    assert_eq!(normalize(b"a/../.."), Vec::<Vec<u8>>::new());
}

#[test]
fn resolving_nothing_yields_the_root_itself() {
    assert_eq!(resolve(b"/srv/www", b"/"), b"/srv/www".to_vec());
    assert_eq!(resolve(b"/srv/www", b""), b"/srv/www".to_vec());
    assert_eq!(resolve(b"/srv/www", b"/./"), b"/srv/www".to_vec());
}

#[test]
fn resolver_is_idempotent_on_its_own_output() {
    let once = resolve(b"", b"/a/../b/./c//");
    assert_eq!(once, b"/b/c".to_vec());
    let twice = resolve(b"", &once);
    assert_eq!(once, twice);
}

#[test]
fn resolver_is_a_pure_function_of_its_input() {
    assert_eq!(resolve(b"/root", b"/x/../y/z"), resolve(b"/root", b"/x/../y/z"));
    assert_eq!(normalize(b"/x/../y/z"), normalize(b"/x/../y/z"));
}

#[test]
fn dotted_file_names_are_kept() {
    assert_eq!(
        normalize(b"/notes/.hidden/file.txt"),
        vec![b"notes".to_vec(), b".hidden".to_vec(), b"file.txt".to_vec()]
    );
    assert_eq!(normalize(b"..."), vec![b"...".to_vec()]);
}

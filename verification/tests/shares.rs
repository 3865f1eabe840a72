use dirt::share::{get_share_name, ShareName};

fn share_of(path: &[u8]) -> ShareName {
    let mut share: ShareName = [0xaa; 256];
    assert_eq!(get_share_name(path, &mut share), Ok(()));
    share
}

fn buffer(name: &[u8]) -> ShareName {
    let mut share: ShareName = [0; 256];
    share[..name.len()].copy_from_slice(name);
    share
}

#[test]
fn the_share_is_the_first_component() {
    assert_eq!(share_of(b"/media/film.mkv"), buffer(b"media"));
    assert_eq!(share_of(b"media/film.mkv"), buffer(b"media"));
    assert_eq!(share_of(b"/media"), buffer(b"media"));
    assert_eq!(share_of(b"/media\0/stale/bytes"), buffer(b"media"));
    assert_eq!(share_of(b"/media\0"), share_of(b"media/other"));
}

#[test]
fn a_path_may_have_no_share() {
    assert_eq!(share_of(b""), buffer(b""));
    assert_eq!(share_of(b"/"), buffer(b""));
    assert_eq!(share_of(b"\0media"), buffer(b""));
    // Only one slash is skipped.
    assert_eq!(share_of(b"//media"), buffer(b""));
}

#[test]
fn long_names_are_cut_off() {
    let long = [b'a'; 300];
    let mut path = vec![b'/'];
    path.extend_from_slice(&long);
    assert_eq!(share_of(&path), buffer(&long[..255]));
    assert_eq!(share_of(&path)[255], 0);
    assert_eq!(share_of(&long[..255]), buffer(&long[..255]));
    assert_eq!(share_of(&long[..254]), buffer(&long[..254]));
    assert_ne!(share_of(&long[..254]), share_of(&long[..255]));
}

use tinyrender::{faces_valid, parse_corner, Triangle};

#[test]
fn triangle_corners() {
    let t = Triangle::new((0, 1, 2), (3, 4, 5), (6, 7, 8));
    assert_eq!(t.corner(0), (0, 1, 2));
    assert_eq!(t.corner(2), (6, 7, 8));
    assert_eq!(t.t[1], (3, 4, 5));
}

#[test]
fn face_indices_are_checked() {
    let faces = vec![Triangle::new((0, 0, 0), (1, 1, 1), (2, 1, 0)), Triangle::new((2, 0, 1), (1, 1, 1), (0, 0, 0))];
    assert!(faces_valid(&faces, 3, 2, 2));
    assert!(!faces_valid(&faces, 2, 2, 2));
    assert!(!faces_valid(&faces, 3, 1, 2));
    assert!(!faces_valid(&faces, 3, 2, 1));
    assert!(faces_valid(&Vec::new(), 0, 0, 0));
    assert!(Triangle::new((0, 0, 0), (0, 0, 0), (0, 0, 0)).is_valid(1, 1, 1));
}

#[test]
fn corner_indices_become_zero_based() {
    assert_eq!(parse_corner(b"1/2/3"), Some((0, 1, 2)));
    assert_eq!(parse_corner(b"24/1103/24"), Some((23, 1102, 23)));
    assert_eq!(parse_corner(b"007/10/1"), Some((6, 9, 0)));
}

#[test]
fn malformed_corners_are_rejected() {
    assert_eq!(parse_corner(b""), None);
    assert_eq!(parse_corner(b"1/2"), None);
    assert_eq!(parse_corner(b"1/2/3/4"), None);
    assert_eq!(parse_corner(b"1//3"), None);
    assert_eq!(parse_corner(b"/2/3"), None);
    assert_eq!(parse_corner(b"1/2/"), None);
    assert_eq!(parse_corner(b"0/2/3"), None);
    assert_eq!(parse_corner(b"1/2/x"), None);
    assert_eq!(parse_corner(b"1/-2/3"), None);
    assert_eq!(parse_corner(b"1/2/3 "), None);
}

#[test]
fn corner_index_bounds() {
    let max = format!("{}/1/1", (usize::MAX as u128) + 1);
    assert_eq!(parse_corner(max.as_bytes()), Some((usize::MAX, 0, 0)));
    let over = format!("1/{}/1", (usize::MAX as u128) + 2);
    assert_eq!(parse_corner(over.as_bytes()), None);
    assert_eq!(parse_corner(b"1/99999999999999999999999999999999999999999/1"), None);
}

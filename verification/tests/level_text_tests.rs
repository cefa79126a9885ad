use zoldath::level_text::parse_grids;

#[test]
fn reads_blocks_of_rows() {
    let text = b"1 1\n1 2 3\n4 5 6\n\n1 2\n7 8 9\n";
    let grids = parse_grids(text).unwrap();
    assert_eq!(grids, vec![vec![vec![1, 2, 3], vec![4, 5, 6]], vec![vec![7, 8, 9]]]);
}

#[test]
fn accepts_crlf_and_surrounding_whitespace() {
    let text = b"  \n level 1\r\n1  2\t\r\n3\r\n\r\n";
    let grids = parse_grids(text).unwrap();
    assert_eq!(grids, vec![vec![vec![1, 2], vec![3]]]);
}

#[test]
fn plus_sign_and_leading_zeros_are_numbers() {
    let grids = parse_grids(b"t\n+5 007 4294967295").unwrap();
    assert_eq!(grids, vec![vec![vec![5, 7, 4294967295]]]);
}

#[test]
fn empty_rows_stay_in_the_grid() {
    let grids = parse_grids(b"t\n1\n \n2").unwrap();
    assert_eq!(grids, vec![vec![vec![1], vec![], vec![2]]]);
}

#[test]
fn malformed_texts_are_refused() {
    assert_eq!(parse_grids(b""), None);
    assert_eq!(parse_grids(b"title only"), None);
    assert_eq!(parse_grids(b"t\n1 x"), None);
    assert_eq!(parse_grids(b"t\n4294967296"), None);
    assert_eq!(parse_grids(b"t\n-1"), None);
    assert_eq!(parse_grids(b"t\n+"), None);
    assert_eq!(parse_grids(b"a\n1\n\n\nb\n2"), None);
}

use zoldath::level_text::parse_route;

#[test]
fn saved_routes_map_cells_to_nodes() {
    let blanks = [(99, 99), (0, 1), (4, 4)];
    let text = b"10 | 40 1\n7 | 1\n3 | 2\nno separator\n";
    assert_eq!(parse_route(text, 0, &blanks), Some(vec![0, 2, 1]));
    assert_eq!(parse_route(text, 1, &blanks), Some(vec![0, 1]));
    assert_eq!(parse_route(text, 2, &blanks), None);
    assert_eq!(parse_route(text, 3, &blanks), None);
    assert_eq!(parse_route(text, 4, &blanks), None);
    assert_eq!(parse_route(b"0 | ", 0, &blanks), Some(vec![0]));
}

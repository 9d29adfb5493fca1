use checksmith::board::Board;
use checksmith::search::draw::is_insufficient_material;

fn board(fen: &str) -> Board {
    Board::from_fen(fen).unwrap()
}

#[test]
fn kk_is_draw() {
    assert!(is_insufficient_material(&board("4k3/8/8/8/8/8/8/4K3 w - - 0 1")));
}

#[test]
fn kn_vs_k_is_draw() {
    assert!(is_insufficient_material(&board("4k3/8/8/8/8/8/8/4KN2 w - - 0 1")));
}

#[test]
fn kb_vs_k_is_draw() {
    assert!(is_insufficient_material(&board("4k3/8/8/8/8/8/8/4KB2 w - - 0 1")));
}

#[test]
fn kb_vs_kb_same_colour_is_draw() {
    assert!(is_insufficient_material(&board("5b2/8/8/8/8/8/8/2B1K2k w - - 0 1")));
}

#[test]
fn kb_vs_kb_diff_colour_not_draw() {
    assert!(!is_insufficient_material(&board("2b5/8/8/8/8/8/8/2B1K2k w - - 0 1")));
}

#[test]
fn kp_vs_k_not_draw() {
    assert!(!is_insufficient_material(&board("4k3/8/8/8/8/8/4P3/4K3 w - - 0 1")));
}

#[test]
fn kr_vs_k_not_draw() {
    assert!(!is_insufficient_material(&board("4k3/8/8/8/8/8/8/4KR2 w - - 0 1")));
}

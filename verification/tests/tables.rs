use lib::tables::data_init;

fn bit(b: u64, i: usize) -> bool {
    (b >> i) & 1 == 1
}

fn file(sq: usize) -> i32 {
    (sq % 8) as i32 + 1
}

fn rank(sq: usize) -> i32 {
    (sq / 8) as i32 + 1
}

#[test]
fn step_tables_follow_the_pieces() {
    let t = data_init();
    for from in 0..64 {
        for to in 0..64 {
            let df = file(to) - file(from);
            let dr = rank(to) - rank(from);
            let knight = (df.abs() == 1 && dr.abs() == 2) || (df.abs() == 2 && dr.abs() == 1);
            let king = from != to && df.abs() <= 1 && dr.abs() <= 1;
            assert_eq!(bit(t.knight_attacks[from], to), knight);
            assert_eq!(bit(t.king_attacks[from], to), king);
            assert_eq!(bit(t.white_pawn_attacks[from], to), df.abs() == 1 && dr == 1);
            assert_eq!(bit(t.black_pawn_attacks[from], to), df.abs() == 1 && dr == -1);
        }
    }
    // a knight in the corner reaches two squares
    assert_eq!(t.knight_attacks[0], (1 << 10) | (1 << 17));
}

/// The squares attacked along a line of eight from `s`, with the inner
/// squares occupied as in `state6`.
fn line(s: i32, state6: usize, j: i32) -> bool {
    if j == s {
        return false;
    }
    let (lo, hi) = if s < j { (s, j) } else { (j, s) };
    ((lo + 1)..hi).all(|i| !bit((state6 as u64) << 1, i as usize))
}

#[test]
fn sliding_tables_stop_at_the_first_piece() {
    let t = data_init();
    for sq in 0..64 {
        for state6 in 0..64 {
            for to in 0..64 {
                let on_rank = rank(to) == rank(sq) && line(file(sq) - 1, state6, file(to) - 1);
                assert_eq!(bit(t.rank_attacks[sq][state6], to), on_rank);
                let on_file = file(to) == file(sq) && line(8 - rank(sq), state6, 8 - rank(to));
                assert_eq!(bit(t.file_attacks[sq][state6], to), on_file);
                let d8 = file(sq) + rank(sq);
                let pos8 = |x: usize| if d8 < 10 { file(x) - 1 } else { 8 - rank(x) };
                let on_d8 = file(to) + rank(to) == d8 && line(pos8(sq), state6, pos8(to));
                assert_eq!(bit(t.diaga8h1_attacks[sq][state6], to), on_d8);
                let d1 = file(sq) - rank(sq);
                let pos1 = |x: usize| if d1 < 0 { file(x) - 1 } else { rank(x) - 1 };
                let on_d1 = file(to) - rank(to) == d1 && line(pos1(sq), state6, pos1(to));
                assert_eq!(bit(t.diaga1h8_attacks[sq][state6], to), on_d1);
            }
        }
    }
    // a rook on a1 with an empty rank sees the whole first rank
    assert_eq!(t.rank_attacks[0][0], 0xfe);
}

use lib::getbook::{get_col, get_left, get_right, get_row, get_uci_move, CastleRights, Move, Piece,
    PieceType, PolyglotEntry, PolyglotKey, PolyglotRandom, PolyglotReader, Side, Square};
use lib::wchess::{new_board, set_fen};

/// Distinct numbers for the key, so that each part of a hash can be seen.
fn randoms() -> PolyglotRandom {
    PolyglotRandom {
        piece: (0..768u64).map(|i| 1u64 << (i % 64) ^ (i << 32)).collect(),
        castle: vec![0x10, 0x20, 0x40, 0x80],
        en_passant: (0..8u64).map(|i| 0x1000 << i).collect(),
        turn: 0x8000_0000_0000_0000,
    }
}

#[test]
fn square_helpers() {
    assert_eq!(get_col(27), 3);
    assert_eq!(get_row(27), 3);
    assert_eq!(get_left(8), None);
    assert_eq!(get_left(9), Some(8));
    assert_eq!(get_right(15), None);
    assert_eq!(get_right(14), Some(15));
    assert_eq!(PieceType::Queen.index(), 4);
    assert_eq!(PieceType::Pawn.index(), 0);
}

#[test]
fn book_moves() {
    // e2e4: to e4 (file 4, rank 3), from e2 (file 4, rank 1)
    let m = Move::from_u16(4 | (3 << 3) | (4 << 6) | (1 << 9));
    assert_eq!((m.source.file, m.source.rank, m.dest.file, m.dest.rank), (4, 1, 4, 3));
    assert!(m.promotion.is_none());
    assert_eq!(get_uci_move(m), "e2e4");
    // a7a8 promoting to a queen
    let q = Move::from_u16(0 | (7 << 3) | (0 << 6) | (6 << 9) | (4 << 12));
    assert_eq!(q.promotion, Some(PieceType::Queen));
    assert_eq!(get_uci_move(q), "a7a8q");
    // castling as the king taking its rook
    let c = Move { source: Square { rank: 0, file: 4 }, dest: Square { rank: 0, file: 7 }, promotion: None };
    assert_eq!(get_uci_move(c), "e1g1");
    let c = Move { source: Square { rank: 7, file: 4 }, dest: Square { rank: 7, file: 0 }, promotion: None };
    assert_eq!(get_uci_move(c), "e8c8");
}

#[test]
fn entry_bytes() {
    let bytes = [0x03u8, 0x1c, 0x01, 0x02, 0, 0, 0, 0];
    let e = PolyglotEntry::from_bytes(&bytes);
    assert_eq!(e.weight, 0x0102);
    assert_eq!(get_uci_move(e.mv), "e2e4");
}

#[test]
fn key_of_initial_position() {
    let b = new_board();
    let k = PolyglotKey::from_board(&b);
    assert_eq!(k.pieces.len(), 32);
    assert_eq!(k.pieces[0].piece_type, PieceType::Rook);
    assert_eq!(k.pieces[0].side, Side::White);
    assert_eq!(k.pieces[4].piece_type, PieceType::King);
    assert_eq!(k.pieces[31].side, Side::Black);
    assert!(k.white_castle.king_side && k.white_castle.queen_side);
    assert!(k.black_castle.king_side && k.black_castle.queen_side);
    assert_eq!(k.turn, Side::White);
    // with no en-passant square the probe looks beside a1, where no pawn stands
    assert_eq!(k.en_passant_file, None);
}

#[test]
fn key_en_passant_file() {
    let mut b = new_board();
    set_fen(&mut b, "rnbqkbnr/ppp1p1pp/8/3pPp2/8/8/PPPP1PPP/RNBQKBNR w KQkq f6 0 3");
    let k = PolyglotKey::from_board(&b);
    assert_eq!(k.en_passant_file, Some(5));
    set_fen(&mut b, "rnbqkbnr/pppppppp/8/8/4P3/8/PPPP1PPP/RNBQKBNR b KQkq e3 0 1");
    let k = PolyglotKey::from_board(&b);
    assert_eq!(k.en_passant_file, None);
}

#[test]
fn key_hash_parts() {
    let keys = randoms();
    let p = Piece { piece_type: PieceType::Knight, side: Side::White, square: Square { rank: 0, file: 1 } };
    // kind 3, square b1
    assert_eq!(p.polyglot_hash(&keys), keys.piece[64 * 3 + 1]);
    let c = CastleRights { queen_side: true, king_side: true };
    assert_eq!(c.polyglot_hash(Side::White, &keys), 0x30);
    assert_eq!(c.polyglot_hash(Side::Black, &keys), 0xc0);
    let k = PolyglotKey {
        pieces: vec![p],
        white_castle: CastleRights { queen_side: false, king_side: true },
        black_castle: CastleRights { queen_side: false, king_side: false },
        en_passant_file: Some(2),
        turn: Side::White,
    };
    assert_eq!(k.polyglot_hash(&keys), keys.piece[193] ^ 0x10 ^ 0x4000 ^ 0x8000_0000_0000_0000);
}

fn entry(key: u64, mv: u16, weight: u16) -> Vec<u8> {
    let mut v = key.to_be_bytes().to_vec();
    v.extend_from_slice(&mv.to_be_bytes());
    v.extend_from_slice(&weight.to_be_bytes());
    v.extend_from_slice(&[0, 0, 0, 0]);
    v
}

#[test]
fn book_lookup() {
    let keys = randoms();
    let k = PolyglotKey {
        pieces: vec![],
        white_castle: CastleRights { queen_side: false, king_side: false },
        black_castle: CastleRights { queen_side: false, king_side: false },
        en_passant_file: None,
        turn: Side::Black,
    };
    let h = k.polyglot_hash(&keys);
    assert_eq!(h, 0);
    let e2e4: u16 = 4 | (3 << 3) | (4 << 6) | (1 << 9);
    let d2d4: u16 = 3 | (3 << 3) | (3 << 6) | (1 << 9);
    let mut data = Vec::new();
    data.extend(entry(0, e2e4, 10));
    data.extend(entry(0, d2d4, 7));
    data.extend(entry(5, e2e4, 1));
    data.extend(entry(9, e2e4, 1));
    let r = PolyglotReader::new(data);
    assert_eq!(r.len, 4);
    let found = r.get(&k, &keys);
    assert_eq!(found.len(), 2);
    assert_eq!(found[0].weight, 10);
    assert_eq!(get_uci_move(found[1].mv), "d2d4");
    // a key the book does not hold
    let k2 = PolyglotKey { turn: Side::White, ..k };
    let keys2 = PolyglotRandom { turn: 7, ..randoms() };
    assert!(r.get(&k2, &keys2).is_empty());
}

#[test]
fn book_lookup_gives_all_entries_of_the_key() {
    let k = PolyglotKey {
        pieces: vec![],
        white_castle: CastleRights { queen_side: false, king_side: false },
        black_castle: CastleRights { queen_side: false, king_side: false },
        en_passant_file: None,
        turn: Side::White,
    };
    let keys = PolyglotRandom { turn: 7, ..randoms() };
    assert_eq!(k.polyglot_hash(&keys), 7);
    let e2e4: u16 = 4 | (3 << 3) | (4 << 6) | (1 << 9);
    let mut data = Vec::new();
    data.extend(entry(1, e2e4, 1));
    data.extend(entry(7, e2e4, 2));
    data.extend(entry(7, e2e4, 3));
    data.extend(entry(7, e2e4, 4));
    data.extend(entry(9, e2e4, 5));
    let r = PolyglotReader::new(data);
    let found = r.get(&k, &keys);
    let weights: Vec<u16> = found.iter().map(|e| e.weight).collect();
    assert_eq!(weights, vec![2, 3, 4]);
    // the key held only by the last entry is not found
    let mut data = Vec::new();
    data.extend(entry(1, e2e4, 1));
    data.extend(entry(3, e2e4, 2));
    data.extend(entry(7, e2e4, 3));
    let r = PolyglotReader::new(data);
    assert!(r.get(&k, &keys).is_empty());
}

use checkers::{Board, Dir, Game, Latent, Move, Player, Pos};

const DIRS: [Dir; 4] = [
    Dir::ForwardRight,
    Dir::ForwardLeft,
    Dir::BackwardLeft,
    Dir::BackwardRight,
];

fn opposite(d: Dir) -> Dir {
    match d {
        Dir::ForwardRight => Dir::BackwardLeft,
        Dir::ForwardLeft => Dir::BackwardRight,
        Dir::BackwardLeft => Dir::ForwardRight,
        Dir::BackwardRight => Dir::ForwardLeft,
    }
}

fn position(side: Player, jumping: Option<Pos>, blk: Board, red: Board, king: Board) -> Game {
    Game { side, jumping, red, blk, king }
}

fn mask(bits: u32) -> Board {
    Board::new(bits)
}

/// A few masks that cover the corners, the edges and dense boards.
fn sample_masks() -> Vec<u32> {
    vec![
        0,
        1,
        0x8000_0000,
        0xffff_ffff,
        0x0000_0fff,
        0xfff0_0000,
        0x8000_0001,
        0x5555_5555,
        0xaaaa_aaaa,
        0x0102_0408,
        0x0800_2041,
    ]
}

#[test]
fn graphical_round_trip_on_every_cell() {
    let mut playable = 0;
    for gy in 0..8u8 {
        for gx in 0..8u8 {
            match Pos::graphical(gx, gy) {
                Some(p) => {
                    assert_eq!((gx + gy) % 2, 1);
                    assert_eq!((p.gx(), p.gy()), (gx, gy));
                    playable += 1;
                }
                None => assert_eq!((gx + gy) % 2, 0),
            }
        }
    }
    assert_eq!(playable, 32);
}

#[test]
fn packed_round_trip_on_every_square() {
    for v in 0..32u8 {
        let p = Pos::raw(v);
        assert_eq!(Pos::new(p.x(), p.y()), p);
        assert_eq!(Pos::graphical(p.gx(), p.gy()), Some(p));
        assert_eq!(p.x(), v % 4);
        assert_eq!(p.y(), v / 4);
    }
}

#[test]
fn coordinates_of_chosen_squares() {
    let p = Pos::raw(14);
    assert_eq!((p.x(), p.y(), p.gx(), p.gy()), (2, 3, 3, 4));
    let p = Pos::raw(0);
    assert_eq!((p.x(), p.y(), p.gx(), p.gy()), (0, 0, 6, 7));
    let p = Pos::raw(31);
    assert_eq!((p.x(), p.y(), p.gx(), p.gy()), (3, 7, 1, 0));
    assert_eq!(Pos::new(3, 2), Pos::raw(11));
}

#[test]
fn square_bitboard_has_one_member() {
    for v in 0..32u8 {
        let p = Pos::raw(v);
        assert_eq!(p.board(), Board::new(1u32 << v));
        assert_eq!(p.board().actives(), vec![p]);
        for w in 0..32u8 {
            assert_eq!(Pos::raw(w).is(p.board()), v == w);
        }
    }
}

#[test]
fn actives_are_complete_ascending_and_unique() {
    for bits in sample_masks() {
        let actives = Board::new(bits).actives();
        assert_eq!(actives.len(), bits.count_ones() as usize);
        for pair in actives.windows(2) {
            assert!(pair[0] < pair[1]);
        }
        for v in 0..32u8 {
            let member = bits & (1u32 << v) != 0;
            assert_eq!(actives.contains(&Pos::raw(v)), member);
            assert_eq!(Pos::raw(v).is(Board::new(bits)), member);
        }
    }
}

#[test]
fn actives_of_empty_and_full_board() {
    assert_eq!(Board::empty().actives(), Vec::<Pos>::new());
    assert_eq!(Board::default(), Board::empty());
    let all = Board::new(0xffff_ffff).actives();
    assert_eq!(all.len(), 32);
    for (i, p) in all.iter().enumerate() {
        assert_eq!(*p, Pos::raw(i as u8));
    }
}

#[test]
fn bitboard_operators_act_as_set_operations() {
    let a = Board::new(0x0000_0f0f);
    let b = Board::new(0x0000_00ff);
    assert_eq!(a & b, Board::new(0x0000_000f));
    assert_eq!(a | b, Board::new(0x0000_0fff));
    assert_eq!(a ^ b, Board::new(0x0000_0ff0));
    assert_eq!(!a, Board::new(0xffff_f0f0));
    assert_eq!(a << 4i8, Board::new(0x0000_f0f0));
    assert_eq!(a >> 4i8, Board::new(0x0000_00f0));
    assert_eq!(Board::new(0xf000_0000) << 1i8, Board::new(0xe000_0000));

    let mut c = a;
    c &= b;
    assert_eq!(c, Board::new(0x0000_000f));
    let mut c = a;
    c |= b;
    assert_eq!(c, Board::new(0x0000_0fff));
    let mut c = a;
    c ^= b;
    assert_eq!(c, Board::new(0x0000_0ff0));
    let mut c = a;
    c <<= 4i8;
    assert_eq!(c, Board::new(0x0000_f0f0));
    let mut c = a;
    c >>= 4i8;
    assert_eq!(c, Board::new(0x0000_00f0));
}

#[test]
fn step_moves_one_cell_on_the_grid() {
    for v in 0..32u8 {
        let p = Pos::raw(v);
        for d in DIRS {
            let (dx, dy): (i8, i8) = match d {
                Dir::ForwardRight => (1, -1),
                Dir::ForwardLeft => (-1, -1),
                Dir::BackwardLeft => (-1, 1),
                Dir::BackwardRight => (1, 1),
            };
            let tx = p.gx() as i8 + dx;
            let ty = p.gy() as i8 + dy;
            let inside = 0 <= tx && tx < 8 && 0 <= ty && ty < 8;
            let reached = d.apply(p.board()).actives();
            assert_eq!(d.valid_pos(p), inside);
            if inside {
                assert_eq!(reached, vec![Pos::graphical(tx as u8, ty as u8).unwrap()]);
            } else {
                assert_eq!(reached, Vec::<Pos>::new());
            }
        }
    }
}

#[test]
fn direction_reversal_recovers_the_source() {
    for v in 0..32u8 {
        let p = Pos::raw(v);
        for d in DIRS {
            let m = Move { src: p, dir: d, jump: false };
            assert_eq!(m.lands(), d.valid_pos(p));
            if m.lands() {
                let dst = m.dst();
                assert_eq!(m.mid(), dst);
                assert_eq!(opposite(d).apply(dst.board()), p.board());
                let back = Move { src: dst, dir: opposite(d), jump: false };
                assert_eq!(back.dst(), p);
            }
        }
    }
}

#[test]
fn jump_lands_two_steps_away() {
    let m = Move { src: Pos::new(2, 1), dir: Dir::ForwardRight, jump: true };
    assert!(m.lands());
    assert_eq!(m.mid(), Pos::new(1, 2));
    assert_eq!(m.dst(), Pos::new(1, 3));

    let m = Move { src: Pos::new(0, 6), dir: Dir::ForwardLeft, jump: true };
    assert!(!m.lands());
    let m = Move { src: Pos::new(0, 6), dir: Dir::ForwardLeft, jump: false };
    assert!(m.lands());
    assert_eq!(m.dst(), Pos::new(1, 7));
    let m = Move { src: Pos::new(0, 7), dir: Dir::ForwardLeft, jump: false };
    assert!(!m.lands());
}

#[test]
fn direction_is_the_union_of_its_latent_halves() {
    let halves = [
        (Dir::ForwardRight, Latent::FA, Latent::FC),
        (Dir::ForwardLeft, Latent::FB, Latent::FD),
        (Dir::BackwardLeft, Latent::BA, Latent::BC),
        (Dir::BackwardRight, Latent::BB, Latent::BD),
    ];
    for bits in sample_masks() {
        let all = Board::new(bits);
        for (d, l0, l1) in halves {
            assert_eq!(d.apply(all), l0.apply(all) | l1.apply(all));
            assert_eq!(l0.apply(all) & l1.apply(all), Board::empty());
        }
    }
    assert_eq!(Latent::FA.apply(Board::new(0xffff_ffff)), Board::new(0xf0f0_f0f0));
    assert_eq!(Latent::FC.apply(Board::new(0xffff_ffff)), Board::new(0x0707_0700));
    assert_eq!(Latent::BD.apply(Board::new(0xffff_ffff)), Board::new(0x0707_0707));
    assert_eq!(Dir::ForwardRight.apply(Board::new(0x0000_0fff)), Board::new(0x0000_f7f0));
}

#[test]
fn candidates_come_in_the_order_of_the_directions() {
    let src = Pos::raw(9);
    for jump in [false, true] {
        let cands = Move::cands(src, jump);
        for (c, d) in cands.iter().zip(DIRS) {
            assert_eq!(*c, Move { src, dir: d, jump });
        }
    }
}

#[test]
fn piece_rule_for_directions() {
    for d in DIRS {
        for side in [Player::BLK, Player::RED] {
            assert!(d.valid_piece(side, true));
        }
    }
    assert!(Dir::ForwardRight.valid_piece(Player::BLK, false));
    assert!(Dir::ForwardLeft.valid_piece(Player::BLK, false));
    assert!(!Dir::BackwardLeft.valid_piece(Player::BLK, false));
    assert!(!Dir::BackwardRight.valid_piece(Player::BLK, false));
    assert!(!Dir::ForwardRight.valid_piece(Player::RED, false));
    assert!(!Dir::ForwardLeft.valid_piece(Player::RED, false));
    assert!(Dir::BackwardLeft.valid_piece(Player::RED, false));
    assert!(Dir::BackwardRight.valid_piece(Player::RED, false));

    assert!(Dir::ForwardRight.valid(Player::BLK, false, Pos::new(0, 0)));
    assert!(!Dir::ForwardRight.valid(Player::RED, false, Pos::new(0, 0)));
    assert!(!Dir::BackwardRight.valid(Player::RED, false, Pos::new(0, 0)));
    assert!(!Dir::ForwardRight.valid(Player::BLK, true, Pos::new(0, 7)));
    assert!(Dir::BackwardLeft.valid(Player::BLK, true, Pos::new(0, 7)));
}

#[test]
fn opening_offers_only_forward_simple_moves() {
    let g = position(Player::BLK, None, mask(0x0000_0fff), mask(0xfff0_0000), mask(0));
    assert_eq!(g.gap(), Board::new(0x000f_f000));
    assert_eq!(g.jumpables(), Board::empty());
    assert_eq!(g.movables(), Board::new(0x0000_0f00));
    let moves = g.moves();
    assert_eq!(moves.len(), 7);
    for m in &moves {
        assert!(!m.jump);
        assert_eq!(m.src.y(), 2);
        assert!(m.dir == Dir::ForwardRight || m.dir == Dir::ForwardLeft);
        assert!(m.dst().is(g.gap()));
        assert_eq!(m.dst().y(), 3);
        assert!(g.valid(m));
    }
    let red = position(Player::RED, None, mask(0x0000_0fff), mask(0xfff0_0000), mask(0));
    assert_eq!(red.movables(), Board::new(0x00f0_0000));
    assert_eq!(red.moves().len(), 7);
    assert_eq!(g.winner(), None);
}

#[test]
fn moves_come_by_source_then_direction() {
    let g = position(Player::BLK, None, mask((1 << 9) | (1 << 18)), mask(0), mask(1 << 9));
    let moves = g.moves();
    let expected = vec![
        Move { src: Pos::raw(9), dir: Dir::ForwardRight, jump: false },
        Move { src: Pos::raw(9), dir: Dir::ForwardLeft, jump: false },
        Move { src: Pos::raw(9), dir: Dir::BackwardLeft, jump: false },
        Move { src: Pos::raw(9), dir: Dir::BackwardRight, jump: false },
        Move { src: Pos::raw(18), dir: Dir::ForwardRight, jump: false },
        Move { src: Pos::raw(18), dir: Dir::ForwardLeft, jump: false },
    ];
    assert_eq!(moves, expected);
}

#[test]
fn lone_pone_must_jump_its_neighbour() {
    // Black on (2, 1), red next to it on (1, 2), nothing behind red on (1, 3).
    let src = Pos::new(2, 1);
    let mid = Pos::new(1, 2);
    let dst = Pos::new(1, 3);
    let g = position(Player::BLK, None, src.board(), mid.board(), mask(0));
    assert_eq!(g.jumpables(), src.board());
    let moves = g.moves();
    assert_eq!(moves, vec![Move { src, dir: Dir::ForwardRight, jump: true }]);
    assert_eq!(moves[0].mid(), mid);
    assert_eq!(moves[0].dst(), dst);

    let after = g.apply(&moves[0]);
    assert_eq!(after.red, Board::empty());
    assert_eq!(after.blk, dst.board());
    assert_eq!(after.king, Board::empty());
    assert_eq!(after.side, Player::RED);
    assert_eq!(after.jumping, None);
    assert_eq!(after.winner(), Some(Player::BLK));
}

#[test]
fn a_jump_overrides_every_simple_move() {
    // Two black pones; only the one on (2, 1) has a jump.
    let red = Pos::new(1, 2).board();
    let blk = Pos::new(2, 1).board() | Pos::new(0, 0).board();
    let g = position(Player::BLK, None, blk, red, mask(0));
    assert_ne!(g.jumpables(), Board::empty());
    assert_ne!(g.movables(), Board::empty());
    let moves = g.moves();
    assert!(!moves.is_empty());
    for m in &moves {
        assert!(m.jump);
        assert!(m.src.is(g.jumpables()));
    }
}

#[test]
fn a_chain_of_jumps_is_bound_to_one_piece() {
    // Both black kings have a jump; the one on (2, 3) is in the middle of a chain.
    let red = Pos::new(2, 4).board() | Pos::new(1, 2).board();
    let blk = Pos::new(2, 3).board() | Pos::new(2, 1).board();
    let chained = Pos::new(2, 3);
    let free = position(Player::BLK, None, blk, red, blk);
    let sources: Vec<Pos> = free.moves().iter().map(|m| m.src).collect();
    assert!(sources.contains(&Pos::new(2, 1)));
    assert!(sources.contains(&chained));

    let g = position(Player::BLK, Some(chained), blk, red, blk);
    let moves = g.moves();
    assert!(!moves.is_empty());
    for m in &moves {
        assert_eq!(m.src, chained);
        assert!(m.jump);
    }
}

#[test]
fn a_chain_without_a_jump_has_no_move() {
    let g = position(Player::BLK, Some(Pos::new(2, 3)), Pos::new(2, 3).board(), mask(0), mask(0));
    assert_ne!(g.movables(), Board::empty());
    assert_eq!(g.moves(), Vec::<Move>::new());
}

#[test]
fn arrival_in_a_back_rank_promotes() {
    for x in 0..4u8 {
        for d in [Dir::ForwardRight, Dir::ForwardLeft] {
            let m = Move { src: Pos::new(x, 6), dir: d, jump: false };
            if m.lands() {
                let g = position(Player::BLK, None, m.src.board(), mask(1 << 1), mask(0));
                let after = g.apply(&m);
                assert!(m.dst().is(after.king));
                assert!(m.dst().is(after.blk));
                assert!(!m.src.is(after.blk));
            }
        }
        for d in [Dir::BackwardLeft, Dir::BackwardRight] {
            let m = Move { src: Pos::new(x, 1), dir: d, jump: false };
            if m.lands() {
                let g = position(Player::RED, None, mask(1 << 30), m.src.board(), mask(0));
                let after = g.apply(&m);
                assert!(m.dst().is(after.king));
                assert!(m.dst().is(after.red));
            }
        }
    }
}

#[test]
fn a_jump_into_the_back_rank_promotes_and_captures_a_king() {
    let src = Pos::new(2, 5);
    let m = Move { src, dir: Dir::ForwardRight, jump: true };
    let mid = m.mid();
    let dst = m.dst();
    assert_eq!(dst.y(), 7);
    let g = position(Player::BLK, None, src.board(), mid.board(), mid.board());
    assert_eq!(g.moves(), vec![Move { src, dir: Dir::ForwardRight, jump: true }]);
    let after = g.apply(&m);
    assert_eq!(after.blk, dst.board());
    assert_eq!(after.king, dst.board());
    assert_eq!(after.red, Board::empty());
}

#[test]
fn a_pone_that_stays_in_the_middle_stays_a_pone() {
    let m = Move { src: Pos::new(1, 2), dir: Dir::ForwardLeft, jump: false };
    let g = position(Player::BLK, None, m.src.board(), mask(1 << 31), mask(0));
    let after = g.apply(&m);
    assert_eq!(after.king, Board::empty());
    assert_eq!(after.side, Player::RED);
    let king = position(Player::BLK, None, m.src.board(), mask(1 << 31), m.src.board());
    let after = king.apply(&m);
    assert_eq!(after.king, m.dst().board());
}

#[test]
fn winner_is_the_side_whose_opponent_is_gone() {
    assert_eq!(position(Player::BLK, None, mask(1), mask(2), mask(0)).winner(), None);
    assert_eq!(position(Player::RED, None, mask(1), mask(0), mask(0)).winner(), Some(Player::BLK));
    assert_eq!(position(Player::BLK, None, mask(0), mask(2), mask(0)).winner(), Some(Player::RED));
    assert_eq!(position(Player::BLK, None, mask(0), mask(0), mask(0)).winner(), Some(Player::RED));
    assert_eq!(Game::default().winner(), Some(Player::RED));
}

#[test]
fn a_blocked_side_has_not_lost() {
    // The black pone in the last row cannot advance; black is to move.
    let g = position(Player::BLK, None, mask(1 << 30), mask(1), mask(0));
    assert_eq!(g.moves(), Vec::<Move>::new());
    assert_eq!(g.winner(), None);
}

#[test]
fn a_side_without_a_move_hands_the_turn_back() {
    // The red pone in the first row cannot advance, so after black's move
    // it is black's turn again.
    let m = Move { src: Pos::new(1, 4), dir: Dir::ForwardRight, jump: false };
    let g = position(Player::BLK, None, m.src.board(), mask(1), mask(0));
    assert_eq!(g.moves().len(), 2);
    let after = g.apply(&m);
    assert_eq!(after.red, Board::new(1));
    assert_eq!(after.blk, m.dst().board());
    assert_eq!(after.side, Player::BLK);
    assert_eq!(after.jumping, None);
    assert!(!after.moves().is_empty());
}

#[test]
fn a_finished_chain_hands_the_turn_over() {
    // After the jump no further jump is left, and red can move.
    let m = Move { src: Pos::new(2, 1), dir: Dir::ForwardRight, jump: true };
    let red = m.mid().board() | Pos::new(0, 7).board();
    let g = position(Player::BLK, None, m.src.board(), red, mask(0));
    let after = g.apply(&m);
    assert_eq!(after.side, Player::RED);
    assert_eq!(after.jumping, None);
    assert_eq!(after.red, Pos::new(0, 7).board());
    assert!(!after.moves().is_empty());
}

#[test]
fn a_legal_move_keeps_the_sides_apart() {
    let mut g = position(Player::BLK, None, mask(0x0000_0fff), mask(0xfff0_0000), mask(0));
    for _ in 0..60 {
        let moves = g.moves();
        if moves.is_empty() {
            break;
        }
        let m = &moves[moves.len() / 2];
        g = g.apply(m);
        assert_eq!(g.blk & g.red, Board::empty());
        assert_eq!(g.king & !(g.blk | g.red), Board::empty());
        assert_eq!(g.gap(), !(g.blk | g.red));
    }
}

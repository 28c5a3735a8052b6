use chess_coach::analysis::{analyze_position_features, build_summary, compare_lines, vec_added, vec_removed};
use chess_coach::attacks::{attackers_to, pawn_attacks_from};
use chess_coach::board::{Board, Color, Piece, Role};
use chess_coach::chess::parse_fen;
use chess_coach::strategy::{analyze_material, count_material};
use chess_coach::tactics::{detect_all_tactics, piece_name, piece_value};

const START: &str = "rnbqkbnr/pppppppp/8/8/8/8/PPPPPPPP/RNBQKBNR w KQkq - 0 1";

fn strings(texts: &[&str]) -> Vec<String> {
    texts.iter().map(|t| t.to_string()).collect()
}

fn square(name: &str) -> u32 {
    let b = name.as_bytes();
    (b[0] - b'a') as u32 + 8 * (b[1] - b'1') as u32
}

#[test]
fn piece_values_and_names() {
    assert_eq!(piece_value(Role::Pawn), 100);
    assert_eq!(piece_value(Role::Knight), 300);
    assert_eq!(piece_value(Role::Bishop), 320);
    assert_eq!(piece_value(Role::Rook), 500);
    assert_eq!(piece_value(Role::Queen), 900);
    assert_eq!(piece_value(Role::King), 0);
    assert_eq!(piece_name(Role::Knight), "knight");
    assert_eq!(piece_name(Role::King), "king");
}

#[test]
fn pawn_attacks_stay_on_the_board() {
    let a2 = pawn_attacks_from(Color::White, square("a2"));
    assert!(a2.contains(square("b3")));
    assert_eq!(a2.count(), 1);
    let h7 = pawn_attacks_from(Color::Black, square("h7"));
    assert!(h7.contains(square("g6")));
    assert_eq!(h7.count(), 1);
    let e4 = pawn_attacks_from(Color::White, square("e4"));
    assert!(e4.contains(square("d5")) && e4.contains(square("f5")));
    assert_eq!(e4.count(), 2);
    assert!(pawn_attacks_from(Color::White, square("e8")).is_empty());
}

#[test]
fn attackers_to_knights_and_kings() {
    let mut b = Board::empty();
    b.put(square("g1"), Piece { color: Color::White, role: Role::Knight });
    b.put(square("f2"), Piece { color: Color::White, role: Role::King });
    b.put(square("a8"), Piece { color: Color::White, role: Role::Queen });
    let att = attackers_to(&b, square("e2"), Color::White);
    assert!(att.contains(square("g1")));
    assert!(att.contains(square("f2")));
    assert_eq!(att.count(), 2);
    let att = attackers_to(&b, square("g1"), Color::White);
    assert!(att.contains(square("f2")));
    assert!(att.contains(square("a8")) == false);
    assert_eq!(att.count(), 1);
    let att = attackers_to(&b, square("h1"), Color::White);
    assert!(att.contains(square("a8")));
    assert_eq!(att.count(), 1);
}

#[test]
fn attackers_to_finds_each_kind() {
    let mut b = Board::empty();
    b.put(square("e4"), Piece { color: Color::Black, role: Role::Knight });
    b.put(square("d3"), Piece { color: Color::White, role: Role::Pawn });
    b.put(square("e1"), Piece { color: Color::White, role: Role::Rook });
    b.put(square("g2"), Piece { color: Color::White, role: Role::Bishop });
    b.put(square("f6"), Piece { color: Color::White, role: Role::Knight });
    b.put(square("e8"), Piece { color: Color::White, role: Role::Queen });
    b.put(square("e6"), Piece { color: Color::Black, role: Role::Pawn });
    let att = attackers_to(&b, square("e4"), Color::White);
    assert!(att.contains(square("d3")));
    assert!(att.contains(square("e1")));
    assert!(att.contains(square("g2")));
    assert!(att.contains(square("f6")));
    assert!(!att.contains(square("e8")));
    assert_eq!(att.count(), 4);
}

#[test]
fn starting_position_report() {
    let pos = parse_fen(START).unwrap();
    let report = analyze_position_features(&pos);
    assert_eq!(report.material, "Material is equal");
    assert!(report.tactics.is_empty());
    assert_eq!(
        report.strategy,
        strings(&["White has 4 undeveloped minor pieces", "Black has 4 undeveloped minor pieces"])
    );
    assert_eq!(report.summary, "Material is equal");
}

#[test]
fn hanging_queen() {
    let pos = parse_fen("4k3/8/8/3q4/8/8/3R4/4K3 w - - 0 1").unwrap();
    let report = analyze_position_features(&pos);
    assert_eq!(report.material, "Black is up material (+4.00)");
    assert_eq!(report.tactics, strings(&["Black's queen on d5 is hanging — attacked but undefended"]));
    assert_eq!(
        report.strategy,
        strings(&[
            "Open d-file near White's king",
            "Open e-file near White's king",
            "Open f-file near White's king",
            "Open d-file near Black's king",
            "Open e-file near Black's king",
            "Open f-file near Black's king",
            "White has a rook on the open d-file",
        ])
    );
    assert_eq!(report.summary, "Black is up material (+4.00). 1 tactical pattern(s) found");
}

#[test]
fn knight_checks_king_and_attacks_rook() {
    let pos = parse_fen("r3k3/2N5/8/8/8/8/8/4K3 b - - 0 1").unwrap();
    let report = analyze_position_features(&pos);
    assert_eq!(report.material, "Black is up material (+2.00)");
    assert_eq!(
        report.tactics,
        strings(&[
            "White's knight on c7 attacks the king and rook on a8",
            "Black's rook on a8 is hanging — attacked but undefended",
        ])
    );
}

#[test]
fn knight_forks_queen_and_rook() {
    let pos = parse_fen("4k3/8/1q3r2/3N4/8/8/8/4K3 w - - 0 1").unwrap();
    let report = analyze_position_features(&pos);
    assert_eq!(report.material, "Black is up material (+11.00)");
    assert_eq!(report.tactics, strings(&["White's knight on d5 forks queen on b6 and rook on f6"]));
    assert_eq!(
        report.strategy,
        strings(&[
            "White's king is under pressure — 2 enemy pieces attack the king zone",
            "Open d-file near White's king",
            "Open e-file near White's king",
            "Open f-file near White's king",
            "Open d-file near Black's king",
            "Open e-file near Black's king",
            "Open f-file near Black's king",
            "White has a centralized knight on d5",
            "Black has a rook on the open f-file",
        ])
    );
}

#[test]
fn bishop_pins_knight_to_king() {
    let pos = parse_fen("4k3/3n4/8/1B6/8/8/8/4K3 w - - 0 1").unwrap();
    let report = analyze_position_features(&pos);
    assert_eq!(report.material, "White is up material (+0.20)");
    assert_eq!(report.tactics, strings(&["Black's knight on d7 is pinned to the king by bishop on b5"]));
}

#[test]
fn bishop_skewers_rook_to_knight() {
    let pos = parse_fen("k7/8/5n2/8/3r4/8/1B6/6K1 w - - 0 1").unwrap();
    let report = analyze_position_features(&pos);
    assert_eq!(report.material, "Black is up material (+4.80)");
    assert_eq!(
        report.tactics,
        strings(&[
            "bishop on b2 skewers rook on d4 through to knight on f6",
            "Black's rook on d4 is hanging — attacked but undefended",
        ])
    );
}

#[test]
fn pawn_structure_findings() {
    let pos = parse_fen("4k3/8/8/8/8/2P5/2P3P1/4K3 w - - 0 1").unwrap();
    let report = analyze_position_features(&pos);
    assert_eq!(report.material, "White is up a knight (+3.00)");
    assert!(report.tactics.is_empty());
    assert_eq!(
        report.strategy,
        strings(&[
            "White has doubled pawns on the c-file",
            "White has an isolated pawn on c2",
            "White has an isolated pawn on g2",
            "White has an isolated pawn on c3",
            "White has a passed pawn on c3 (rank 3)",
            "Open d-file near White's king",
            "Open e-file near White's king",
            "Open f-file near White's king",
            "Open d-file near Black's king",
            "Open e-file near Black's king",
            "Open f-file near Black's king",
        ])
    );
    assert_eq!(report.summary, "White is up a knight (+3.00). 4 pawn structure issue(s)");
}

#[test]
fn black_passed_pawn() {
    let pos = parse_fen("4k3/8/8/8/3p4/8/8/4K3 b - - 0 1").unwrap();
    let report = analyze_position_features(&pos);
    assert_eq!(report.material, "Black is up a pawn (+1.00)");
    assert_eq!(
        report.strategy,
        strings(&[
            "Black has an isolated pawn on d4",
            "Black has a passed pawn on d4 (rank 4)",
            "Open e-file near White's king",
            "Open f-file near White's king",
            "Open e-file near Black's king",
            "Open f-file near Black's king",
        ])
    );
}

#[test]
fn castled_kings_without_shield() {
    let pos = parse_fen("6k1/8/8/8/8/8/8/6K1 w - - 0 1").unwrap();
    let report = analyze_position_features(&pos);
    assert_eq!(
        report.strategy,
        strings(&[
            "White's king has no pawn shield — potentially unsafe",
            "Open f-file near White's king",
            "Open g-file near White's king",
            "Open h-file near White's king",
            "Black's king has no pawn shield — potentially unsafe",
            "Open f-file near Black's king",
            "Open g-file near Black's king",
            "Open h-file near Black's king",
        ])
    );
}

#[test]
fn material_on_a_board_of_the_library() {
    let mut b = Board::empty();
    b.put(square("e1"), Piece { color: Color::White, role: Role::King });
    b.put(square("e8"), Piece { color: Color::Black, role: Role::King });
    b.put(square("a1"), Piece { color: Color::White, role: Role::Rook });
    b.put(square("h8"), Piece { color: Color::Black, role: Role::Bishop });
    assert_eq!(count_material(&b, Color::White), 500);
    assert_eq!(count_material(&b, Color::Black), 320);
    assert_eq!(analyze_material(&b), "White is up material (+1.80)");
    assert_eq!(
        detect_all_tactics(&b),
        strings(&["White's rook on a1 is hanging — attacked but undefended"])
    );
}

#[test]
fn build_summary_counts() {
    assert_eq!(build_summary("Material is equal", &[], &[]), "Material is equal");
    let tactics = strings(&["a", "b"]);
    let strategy = strings(&[
        "White has doubled pawns on the c-file",
        "Open e-file near White's king",
        "Black has an isolated pawn on d4",
    ]);
    assert_eq!(
        build_summary("Material is equal", &tactics, &strategy),
        "Material is equal. 2 tactical pattern(s) found. 2 pawn structure issue(s)"
    );
}

#[test]
fn diff_of_findings() {
    let previous = strings(&["a", "b", "a"]);
    let current = strings(&["b", "c", "c"]);
    assert_eq!(vec_added(&previous, &current), strings(&["c", "c"]));
    assert_eq!(vec_removed(&previous, &current), strings(&["a", "a"]));
    assert!(vec_added(&current, &current).is_empty());
}

#[test]
fn compare_lines_walks_each_line() {
    let pos = parse_fen(START).unwrap();
    let report = analyze_position_features(&pos);
    let cmp = compare_lines(&pos, &strings(&["e2e4"]), &[], &report.tactics, &report.strategy);
    assert!(cmp.user_checkpoints.is_empty());
    assert_eq!(cmp.engine_checkpoints.len(), 1);
    let cp = &cmp.engine_checkpoints[0];
    assert_eq!(cp.half_move, 1);
    assert_eq!(cp.move_san, "e4");
    assert_eq!(cp.material, "Material is equal");
    assert!(cp.new_tactics.is_empty() && cp.removed_tactics.is_empty());
    assert!(cp.new_strategy.is_empty() && cp.removed_strategy.is_empty());
}

#[test]
fn compare_lines_stops_at_an_unreadable_move() {
    let pos = parse_fen(START).unwrap();
    let cmp = compare_lines(&pos, &strings(&["e2e4", "xx", "e7e5"]), &strings(&["e2e5"]), &[], &[]);
    assert_eq!(cmp.engine_checkpoints.len(), 1);
    assert!(cmp.user_checkpoints.is_empty());
    assert_eq!(
        cmp.engine_checkpoints[0].new_strategy,
        strings(&["White has 4 undeveloped minor pieces", "Black has 4 undeveloped minor pieces"])
    );
}

#[test]
fn knight_forks_defended_queen_and_pawn() {
    let pos = parse_fen("4k3/3q1p2/8/4N3/8/8/8/7K w - - 0 1").unwrap();
    let report = analyze_position_features(&pos);
    assert!(report
        .tactics
        .contains(&"White's knight on e5 forks queen on d7 and pawn on f7".to_string()));
}

#[test]
fn material_names_a_single_piece() {
    let pos = parse_fen("4k3/8/8/8/8/8/8/4K1N1 w - - 0 1").unwrap();
    assert_eq!(analyze_position_features(&pos).material, "White is up a knight (+3.00)");
    let pos = parse_fen("4k3/8/8/8/8/8/8/R3K3 w - - 0 1").unwrap();
    assert_eq!(analyze_position_features(&pos).material, "White is up a rook (+5.00)");
    let pos = parse_fen("3qk3/8/8/8/8/8/8/4K3 w - - 0 1").unwrap();
    assert_eq!(analyze_position_features(&pos).material, "Black is up a queen (+9.00)");
}

#[test]
fn compare_lines_walks_until_material_settles() {
    let pos = parse_fen(START).unwrap();
    let moves = strings(&["g1f3", "g8f6", "f3g1", "f6g8", "g1f3", "g8f6", "f3g1", "f6g8"]);
    let cmp = compare_lines(&pos, &moves, &moves, &[], &[]);
    assert_eq!(cmp.engine_checkpoints.len(), 6);
    assert_eq!(cmp.user_checkpoints.len(), 6);
    assert_eq!(cmp.engine_checkpoints[5].move_san, "Nf6");
}

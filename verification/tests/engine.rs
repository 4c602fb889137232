use wizardbot_engine::book::{
    get_book_candidates, probe_book, should_probe_book, BookEntry, BookRng, OpeningBook,
    Reply,
};
use wizardbot_engine::book_file::{book_body, read_book, BookFileError};
use wizardbot_engine::clock::{deadline, think_time, time_rule, TimeRule, Times};
use wizardbot_engine::context::Context;
use wizardbot_engine::movegen::generate_legal_moves;
use wizardbot_engine::position::{Color, Move, MoveList, Position};
use wizardbot_engine::search::thread_state::Order;
use wizardbot_engine::search::{SearchLimits, Signals};
use wizardbot_engine::text::{
    letters, parse_i32, parse_u16, push_i64, push_u64, split_fields, split_words,
};
use wizardbot_engine::uci::{
    best_move_line, handle_go, handle_uci_line, is_searchable, EngineState,
};

const LATER: u64 = u64::MAX;

const START_KEY: &str = "rnbqkbnr/pppppppp/8/8/8/8/PPPPPPPP/RNBQKBNR w KQkq -";

fn no_book() -> OpeningBook {
    OpeningBook { entries: Vec::new() }
}

fn book_of(key: &str, replies: &[(&str, u32)]) -> OpeningBook {
    let replies = replies.iter().map(|(u, w)| Reply { uci: u.to_string(), weight: *w }).collect();
    OpeningBook { entries: vec![BookEntry { key: key.to_string(), replies }] }
}

fn no_times() -> Times {
    Times { movetime: None, wtime: None, btime: None, winc: None, binc: None }
}

fn text_of(v: &[char]) -> String {
    v.iter().collect()
}

#[test]
fn generator_shifts_and_mixes() {
    let mut rng = BookRng::from_seed(4);
    assert_eq!(rng.0, 5);
    let mut x: u64 = 5;
    for _ in 0..50 {
        x ^= x << 13;
        x ^= x >> 7;
        x ^= x << 17;
        assert_eq!(rng.next_u64(), x);
        assert_ne!(x, 0);
    }
    assert_eq!(BookRng::from_seed(0).next_u64(), 1082269761);
}

#[test]
fn seed_comes_from_the_clock() {
    let rng = BookRng::new_seeded();
    assert_eq!(rng.0 % 2, 1);
    // Later than the beginning of 2020, in milliseconds.
    assert!(rng.0 > 1_577_836_800_000);
}

#[test]
fn book_is_asked_for_sixteen_half_moves() {
    let ctx = Context::new(None);
    let early = Position::from_fen(&ctx, "4k3/8/8/8/8/8/8/4K3 b - - 0 8").unwrap();
    assert!(should_probe_book(&early));
    let late = Position::from_fen(&ctx, "4k3/8/8/8/8/8/8/4K3 w - - 0 9").unwrap();
    assert!(!should_probe_book(&late));
}

#[test]
fn book_draw_goes_by_weight_above_the_floor() {
    let ctx = Context::new(None);
    let pos = Position::startpos(&ctx);
    // The floor is 8: the reply of weight 7 is never drawn, the one of weight 8 may be.
    let book = book_of(START_KEY, &[("a2a3", 7), ("d2d4", 8), ("e2e4", 100)]);
    let mut rng = BookRng::from_seed(1);
    let mut seen = [0u32; 2];
    let mut state: u64 = 1;
    for _ in 0..500 {
        state ^= state << 13;
        state ^= state >> 7;
        state ^= state << 17;
        let expected = if state % 108 < 8 { "d2d4" } else { "e2e4" };
        seen[(expected == "e2e4") as usize] += 1;
        assert_eq!(probe_book(&pos, &book, &mut rng), Some(expected.to_string()));
    }
    assert!(seen[0] > 0 && seen[1] > 0);
}

#[test]
fn book_gives_nothing_without_a_legal_weighted_reply() {
    let ctx = Context::new(None);
    let pos = Position::startpos(&ctx);
    let mut rng = BookRng::from_seed(1);
    assert_eq!(probe_book(&pos, &no_book(), &mut rng), None);
    assert_eq!(probe_book(&pos, &book_of(START_KEY, &[]), &mut rng), None);
    assert_eq!(probe_book(&pos, &book_of(START_KEY, &[("e2e4", 0)]), &mut rng), None);
    assert_eq!(rng.0, 1);
    assert_eq!(probe_book(&pos, &book_of(START_KEY, &[("e2e5", 3)]), &mut rng), None);
    assert_ne!(rng.0, 1);
}

#[test]
fn book_candidates_are_the_replies_for_the_position() {
    let ctx = Context::new(None);
    let pos = Position::startpos(&ctx);
    let book = book_of(START_KEY, &[("a2a3", 7), ("d2d4", 8)]);
    assert_eq!(get_book_candidates(&pos, &book), vec!["a2a3", "d2d4"]);
    assert!(get_book_candidates(&pos, &no_book()).is_empty());
}

#[test]
fn book_file_is_stripped_to_its_object() {
    let raw = "// { a comment }\nvar OPENING_BOOK = {\n  // more\n \"k\": {\"e2e4\": 1}\n};\n";
    assert_eq!(book_body(raw), Some(String::from("{\n \"k\": {\"e2e4\": 1}\n}")));
    assert_eq!(book_body("var x = 1;"), None);
    assert_eq!(book_body("} {"), None);
}

#[test]
fn book_file_is_read() {
    let raw = "// opening book\nvar OPENING_BOOK = {\n\"z w - -\": {},\n\"a w - -\": {\"e2e4\": 5, \"d2d4\": 3}\n};\n";
    let book = read_book(raw).ok().unwrap();
    assert_eq!(book.entries.len(), 2);
    assert_eq!(book.entries[0].key, "a w - -");
    let replies: Vec<(&str, u32)> =
        book.entries[0].replies.iter().map(|r| (r.uci.as_str(), r.weight)).collect();
    assert_eq!(replies, vec![("d2d4", 3), ("e2e4", 5)]);
    assert_eq!(book.entries[1].key, "z w - -");
    assert!(book.entries[1].replies.is_empty());
    assert_eq!(read_book("var x = 1;").err(), Some(BookFileError::NoObject));
    assert_eq!(read_book("{\"a\": 1}").err(), Some(BookFileError::NotJson));
    assert_eq!(read_book("{\"a\": {\"b\": -1}}").err(), Some(BookFileError::NotJson));
    assert_eq!(read_book("{}").ok().unwrap().entries.len(), 0);
}

#[test]
fn engine_introduces_itself() {
    let ctx = Context::new(None);
    let signals = Signals::new();
    let book = no_book();
    let mut engine = EngineState::new(&ctx, &signals, &book);
    let r = handle_uci_line(&mut engine, "  uci ");
    assert_eq!(r.lines, vec!["id name WizardBot", "id author Merlin2LmmL", "uciok"]);
    assert!(r.go.is_none());
    assert_eq!(handle_uci_line(&mut engine, "isready").lines, vec!["readyok"]);
    for line in ["", "   ", "quit", "setoption name Hash value 4", "nonsense"] {
        let r = handle_uci_line(&mut engine, line);
        assert!(r.lines.is_empty() && r.go.is_none());
    }
}

#[test]
fn positions_are_set_up_and_moves_are_made() {
    let ctx = Context::new(None);
    let signals = Signals::new();
    let book = no_book();
    let mut engine = EngineState::new(&ctx, &signals, &book);
    handle_uci_line(&mut engine, "position startpos moves e2e4 c7c5 g1f3");
    assert_eq!(
        engine.pos.book_key(),
        "rnbqkbnr/pp1ppppp/8/2p5/4P3/5N2/PPPP1PPP/RNBQKB1R b KQkq -"
    );
    // Moves after one that is not legal are not made.
    handle_uci_line(&mut engine, "position startpos moves e2e4 e2e4 e7e5");
    assert_eq!(engine.pos.book_key(), "rnbqkbnr/pppppppp/8/8/4P3/8/PPPP1PPP/RNBQKBNR b KQkq e3");
    handle_uci_line(&mut engine, "position fen 8/1P6/2k5/8/8/2K5/6p1/8 w - - 0 1 moves b7b8q");
    assert_eq!(engine.pos.book_key(), "1Q6/8/2k5/8/8/2K5/6p1/8 b - -");
    // A line that makes no sense leaves the position alone.
    for line in ["position", "position here", "position fen 8/8 w - -"] {
        handle_uci_line(&mut engine, line);
        assert_eq!(engine.pos.book_key(), "1Q6/8/2k5/8/8/2K5/6p1/8 b - -");
    }
    handle_uci_line(&mut engine, "ucinewgame");
    assert_eq!(engine.pos.book_key(), START_KEY);
}

#[test]
fn positions_without_a_game_are_set_up() {
    let ctx = Context::new(None);
    let signals = Signals::new();
    let book = no_book();
    let mut engine = EngineState::new(&ctx, &signals, &book);
    for (fen, key) in [
        ("8/8/8/3k4/3K4/8/8/8 w - - 0 1", "8/8/8/3k4/3K4/8/8/8 w - -"),
        ("4k3/4R3/8/8/8/8/8/4K3 w - - 3 9", "4k3/4R3/8/8/8/8/8/4K3 w - -"),
        ("8/8/8/8/8/8/8/4K3 b - - 0 1", "8/8/8/8/8/8/8/4K3 b - -"),
        ("4k3/8/8/8/8/8/8/K3K3 w Q - 0 1", "4k3/8/8/8/8/8/8/K3K3 w Q -"),
    ] {
        handle_uci_line(&mut engine, &format!("position fen {}", fen));
        assert_eq!(engine.pos.book_key(), key);
        assert!(!is_searchable(&engine.pos));
    }
    handle_uci_line(&mut engine, "position startpos");
    assert!(is_searchable(&engine.pos));
    assert!(is_searchable(&Position::startpos(&ctx)));
}

#[test]
fn moves_are_made_although_the_enemy_king_hangs() {
    let ctx = Context::new(None);
    let signals = Signals::new();
    let book = no_book();
    let mut engine = EngineState::new(&ctx, &signals, &book);
    let start = "position fen 4k3/4R3/8/8/8/8/8/4K3 w - - 0 1 moves";
    handle_uci_line(&mut engine, &format!("{} e7d7 e8d7 e1e2", start));
    assert_eq!(engine.pos.book_key(), "8/3k4/8/8/8/8/4K3/8 b - -");
    assert!(is_searchable(&engine.pos));
    // The king itself is not taken.
    handle_uci_line(&mut engine, &format!("{} e7e8", start));
    assert_eq!(engine.pos.book_key(), "4k3/4R3/8/8/8/8/8/4K3 w - -");
}

#[test]
fn commands_take_new_tokens() {
    let ctx = Context::new(None);
    let signals = Signals::new();
    let book = no_book();
    let mut engine = EngineState::new(&ctx, &signals, &book);
    let before = signals.current_token();
    let r = handle_uci_line(&mut engine, "isready");
    assert!(r.orders.is_empty());
    signals.carry_out(&r.orders);
    assert_eq!(signals.current_token(), before);
    for line in ["position startpos", "ucinewgame"] {
        let r = handle_uci_line(&mut engine, line);
        assert_eq!(r.orders, vec![Order::NewToken]);
        let token = signals.current_token();
        signals.carry_out(&r.orders);
        assert_ne!(signals.current_token(), token);
    }
    assert!(!signals.stop_requested());
    let r = handle_uci_line(&mut engine, "stop");
    assert_eq!(r.orders, vec![Order::RaiseStop, Order::NewToken]);
    signals.carry_out(&r.orders);
    assert!(signals.stop_requested());
    assert!(handle_uci_line(&mut engine, "go depth 2").orders.is_empty());
}

#[test]
fn go_command_is_taken_apart() {
    let ctx = Context::new(None);
    let signals = Signals::new();
    let book = no_book();
    let mut engine = EngineState::new(&ctx, &signals, &book);
    let go = handle_uci_line(&mut engine, "go").go.unwrap();
    assert_eq!(go.max_depth, 32);
    assert!(!go.infinite);
    let line = "go wtime 1000 btime x winc 10 binc 20 wtime 900 movetime 5 depth 7 infinite";
    let go = handle_uci_line(&mut engine, line).go.unwrap();
    assert_eq!(go.max_depth, 7);
    assert!(go.infinite);
    let texts = |v: &Vec<Vec<char>>| v.iter().map(|t| text_of(t)).collect::<Vec<String>>();
    assert_eq!(texts(&go.wtime), vec!["1000", "900"]);
    assert_eq!(texts(&go.btime), vec!["x"]);
    assert_eq!(texts(&go.winc), vec!["10"]);
    assert_eq!(texts(&go.binc), vec!["20"]);
    assert_eq!(texts(&go.movetime), vec!["5"]);
    let go = handle_uci_line(&mut engine, "go depth x depth").go.unwrap();
    assert_eq!(go.max_depth, 32);
}

#[test]
fn go_answers_from_the_book_first() {
    let ctx = Context::new(None);
    let signals = Signals::new();
    let book = book_of(START_KEY, &[("b1c3", 2)]);
    let mut engine = EngineState::new(&ctx, &signals, &book);
    let lines = handle_go(&mut engine, SearchLimits { max_depth: 3, deadline_ms: LATER });
    assert_eq!(lines, vec!["info string book move", "bestmove b1c3"]);
}

#[test]
fn go_searches_without_a_book() {
    let ctx = Context::new(None);
    let signals = Signals::new();
    let book = no_book();
    let mut engine = EngineState::new(&ctx, &signals, &book);
    handle_uci_line(&mut engine, "position fen 6k1/5ppp/8/8/8/8/8/4R2K w - - 0 1");
    let lines = handle_go(&mut engine, SearchLimits { max_depth: 3, deadline_ms: LATER });
    assert_eq!(lines.len(), 4);
    for (i, line) in lines[..3].iter().enumerate() {
        assert!(line.starts_with(&format!("info depth {} score mate 1 nodes ", i + 1)), "{}", line);
        assert!(line.contains(" pv e1e8 bookns "), "{}", line);
    }
    assert_eq!(lines[3], "bestmove e1e8");
    handle_uci_line(&mut engine, "position fen 7k/5Q2/6K1/8/8/8/8/8 b - - 0 1");
    let lines = handle_go(&mut engine, SearchLimits { max_depth: 3, deadline_ms: LATER });
    assert_eq!(lines, vec!["bestmove (none)"]);
}

#[test]
fn search_can_be_carried_out_depth_by_depth() {
    let ctx = Context::new(None);
    let signals = Signals::new();
    let book = no_book();
    let mut engine = EngineState::new(&ctx, &signals, &book);
    assert_eq!(engine.book_reply(), None);
    let limits = SearchLimits { max_depth: 3, deadline_ms: LATER };
    let token = signals.next_token();
    let mut d = engine.begin_search(&limits, token).unwrap();
    let mut lines = Vec::new();
    loop {
        let (line, more) = engine.search_deeper(&mut d, limits.max_depth, 0);
        lines.extend(line);
        if !more {
            break;
        }
    }
    assert_eq!(lines.len(), 3);
    assert_eq!(d.depth, 3);
    assert!(best_move_line(d.best_move).starts_with("bestmove "));
    assert_eq!(best_move_line(Move::null()), "bestmove (none)");
}

#[test]
fn time_rules() {
    assert_eq!(time_rule(true, true, 5), TimeRule::Longest);
    assert_eq!(time_rule(false, true, 32), TimeRule::Given);
    assert_eq!(time_rule(false, false, 32), TimeRule::Clock);
    assert_eq!(time_rule(false, false, 31), TimeRule::Fixed);
}

#[test]
fn thinking_times() {
    let white = Color::White;
    let none = no_times();
    assert_eq!(think_time(true, 32, white, &none), 1_200_000);
    assert_eq!(think_time(false, 32, white, &none), 8_000);
    assert_eq!(think_time(false, 6, white, &Times { wtime: Some(60_000), ..none }), 8_000);
    assert_eq!(think_time(false, 32, white, &Times { movetime: Some(700), ..none }), 700);
    assert_eq!(think_time(false, 32, white, &Times { movetime: Some(-3), ..none }), -3);
    assert_eq!(think_time(false, 32, white, &Times { movetime: Some(9_999_999), ..none }), 1_200_000);
    let clock = Times { wtime: Some(60_000), winc: Some(1_000), btime: Some(500), ..none };
    assert_eq!(think_time(false, 32, white, &clock), 3_750);
    assert_eq!(think_time(false, 32, Color::Black, &clock), 50);
    assert_eq!(think_time(false, 32, white, &Times { wtime: Some(-5), ..none }), 8_000);
    assert_eq!(think_time(false, 32, white, &Times { wtime: Some(i64::MAX), ..none }), 1_200_000);
    let negative = Times { wtime: Some(100), winc: Some(i64::MIN), ..none };
    assert_eq!(think_time(false, 32, white, &negative), 50);
}

#[test]
fn thinking_time_is_what_real_arithmetic_gives() {
    let now = 1_700_000_000_000.0f64;
    for (left, inc) in [(60_000i64, 1_000i64), (61_234, 333), (12_345, 7), (1, 0), (99_999, 1_999), (3_001, 1)] {
        let budget = ((left as f64) / 20.0 + (inc as f64) * 0.8 - 50.0).max(50.0).min(1_200_000.0);
        let times = Times { wtime: Some(left), winc: Some(inc), ..no_times() };
        let expected = (now + budget).ceil() - now;
        assert_eq!(think_time(false, 32, Color::White, &times) as f64, expected, "{} {}", left, inc);
    }
}

#[test]
fn deadlines_stay_on_the_clock() {
    assert_eq!(deadline(1_000, 500), 1_500);
    assert_eq!(deadline(1_000, -2_000), 0);
    assert_eq!(deadline(u64::MAX, 5), u64::MAX);
}

#[test]
fn numbers_are_read_and_written() {
    assert_eq!(parse_u16(&letters("65535")), Some(65535));
    assert_eq!(parse_u16(&letters("65536")), None);
    assert_eq!(parse_u16(&letters("+7")), Some(7));
    assert_eq!(parse_u16(&letters("-7")), None);
    assert_eq!(parse_u16(&letters("")), None);
    assert_eq!(parse_i32(&letters("-2147483648")), Some(i32::MIN));
    assert_eq!(parse_i32(&letters("2147483648")), None);
    assert_eq!(parse_i32(&letters("+")), None);
    assert_eq!(parse_i32(&letters("0000000000000000000012")), Some(12));
    for text in ["1", "+1", "-1", "", "-", "+", "++1", " 1", "1 ", "99999999999999999999", "1x", "0"] {
        assert_eq!(parse_i32(&letters(text)), text.parse::<i32>().ok(), "{}", text);
        assert_eq!(parse_u16(&letters(text)), text.parse::<u16>().ok(), "{}", text);
    }
    for n in [0i64, 9, 10, -1, 12345, i64::MAX, i64::MIN] {
        let mut s = String::from("=");
        push_i64(&mut s, n);
        assert_eq!(s, format!("={}", n));
    }
    let mut s = String::new();
    push_u64(&mut s, u64::MAX);
    assert_eq!(s, u64::MAX.to_string());
}

#[test]
fn words_and_fields_are_split() {
    for text in ["", " ", "a b", "  a\t b\u{3000}c\n", "one"] {
        let got: Vec<String> = split_words(&letters(text)).iter().map(|w| text_of(w)).collect();
        let expected: Vec<&str> = text.split_whitespace().collect();
        assert_eq!(got, expected);
    }
    for text in ["", "/", "a/b", "a//b/", "one"] {
        let got: Vec<String> = split_fields(&letters(text), '/').iter().map(|w| text_of(w)).collect();
        let expected: Vec<&str> = text.split('/').collect();
        assert_eq!(got, expected);
    }
}

#[test]
fn more_time_on_the_clock_never_means_less_thinking() {
    let mut last = 0;
    for left in (1..400_000i64).step_by(997) {
        let times = Times { wtime: Some(left), winc: Some(left / 100), ..no_times() };
        let t = think_time(false, 32, Color::White, &times);
        assert!(t >= last);
        last = t;
    }
}

#[test]
fn written_line_is_played_to_its_end() {
    let ctx = Context::new(None);
    let signals = Signals::new();
    let book = no_book();
    let mut engine = EngineState::new(&ctx, &signals, &book);
    let mut pos = Position::startpos(&ctx);
    let mut line = String::from("position startpos moves");
    let mut state: u64 = 12345;
    for _ in 0..60 {
        let mut list = MoveList::new();
        generate_legal_moves(&pos, &mut list);
        if list.count() == 0 {
            break;
        }
        state = state.wrapping_mul(6364136223846793005).wrapping_add(1442695040888963407);
        let m = list.as_slice()[(state >> 33) as usize % list.count()];
        line.push(' ');
        line.push_str(&m.to_uci());
        pos.make_move(m);
    }
    handle_uci_line(&mut engine, &line);
    assert_eq!(engine.pos.mailbox, pos.mailbox);
    assert_eq!(engine.pos.zobrist_key, pos.zobrist_key);
    assert_eq!(engine.pos.halfmove_clock, pos.halfmove_clock);
    assert_eq!(engine.pos.fullmove_number, pos.fullmove_number);
    assert_eq!(engine.pos.undo_stack.len(), pos.undo_stack.len());
}

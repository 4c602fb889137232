use wizardbot_engine::context::Context;
use wizardbot_engine::eval::evaluate;
use wizardbot_engine::movegen::generate_legal_moves;
use wizardbot_engine::position::{MoveList, Position};

#[test]
fn startpos_eval_is_near_zero() {
    let ctx = Context::new(None);
    let pos = Position::startpos(&ctx);
    let mut list = MoveList::new();
    generate_legal_moves(&pos, &mut list);
    let e = evaluate(&pos, Some(&list));
    assert!(e.abs() < 100, "startpos eval too far from 0: {}", e);
}

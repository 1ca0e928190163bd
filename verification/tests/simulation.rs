use langton_ant::board::{Board, Direction, FrameRecorder, Rule, StepCounter, Termination};

#[test]
fn new_board_is_all_zero() {
    let board = Board::new(4);
    for x in 0..4 {
        for y in 0..4 {
            assert_eq!(board.get((x, y)), 0);
        }
    }
}

#[test]
fn set_then_get_returns_value() {
    let mut board = Board::new(3);
    board.set((1, 2), 7);
    assert_eq!(board.get((1, 2)), 7);
    for x in 0..3 {
        for y in 0..3 {
            if (x, y) != (1, 2) {
                assert_eq!(board.get((x, y)), 0);
            }
        }
    }
}

#[test]
fn classical_rule_run_is_deterministic() {
    let rule = Rule::new("LR").expect("valid rule");
    let mut first = Board::new(101);
    let mut second = Board::new(101);
    let result_first = first.walk_langton_ant(&rule, 10_000);
    let result_second = second.walk_langton_ant(&rule, 10_000);
    assert_eq!(result_first, result_second);
    for x in 0..101 {
        for y in 0..101 {
            assert_eq!(first.get((x, y)), second.get((x, y)));
        }
    }
}

#[test]
fn boundary_exit_on_first_move() {
    // Placed on the West edge and facing West, the agent's very first move
    // leaves the grid: one executed step, one flipped cell, no committed
    // move, and so no observer call.
    let rule = Rule::new("LR").expect("valid rule");
    let mut board = Board::new(3);
    let mut counter = StepCounter::new();
    let result =
        board.walk_langton_ant_from(&rule, 10, 0, 1, Direction::West, &mut counter);
    assert_eq!(result.termination, Termination::ExitedBoundary);
    assert_eq!(result.steps, 1);
    assert_eq!(counter.count, 0);
    for x in 0..3 {
        for y in 0..3 {
            let expected = if (x, y) == (0, 1) { 1 } else { 0 };
            assert_eq!(board.get((x, y)), expected);
        }
    }
}

#[test]
fn boundary_exit_from_centered_start() {
    // On a one-cell grid the centered start is the only cell; the first
    // move North leaves the grid, and the board reflects exactly the one
    // flip at the center.
    let rule = Rule::new("LR").expect("valid rule");
    let mut board = Board::new(1);
    let result = board.walk_langton_ant(&rule, 100);
    assert_eq!(result.termination, Termination::ExitedBoundary);
    assert_eq!(result.steps, 1);
    assert_eq!(board.get((0, 0)), 1);
}

#[test]
fn budget_exhaustion_reports_full_budget() {
    // A million-step budget on a grid the agent never leaves: under the
    // one-directive rule "L" it circles four cells forever, so the run
    // ends by exhaustion and reports exactly the budget.
    let rule = Rule::new("L").expect("valid rule");
    let mut board = Board::new(101);
    let result = board.walk_langton_ant(&rule, 1_000_000);
    assert_eq!(result.termination, Termination::BudgetExhausted);
    assert_eq!(result.steps, 1_000_000);
}

#[test]
fn classical_rule_walks_off_a_large_grid() {
    // With the cell advanced before the move and the turn taken from the
    // cell arrived at, the classical rule drifts off even a large grid;
    // where it does, the exit step is deterministic.
    let rule = Rule::new("LR").expect("valid rule");
    let mut board = Board::new(10_000);
    let result = board.walk_langton_ant(&rule, 1_000_000);
    assert_eq!(result.termination, Termination::ExitedBoundary);
    assert_eq!(result.steps, 269_069);
}

#[test]
fn budget_exhaustion_on_a_closed_cycle() {
    // Under the one-directive rule "L" every cell stays 0 and the agent
    // walks a fixed four-cell cycle, so it can never reach an edge.
    let rule = Rule::new("L").expect("valid rule");
    let mut board = Board::new(5);
    let result = board.walk_langton_ant(&rule, 1_000);
    assert_eq!(result.termination, Termination::BudgetExhausted);
    assert_eq!(result.steps, 1_000);
}

#[test]
fn zero_budget_run_does_nothing() {
    let rule = Rule::new("LR").expect("valid rule");
    let mut board = Board::new(5);
    let mut counter = StepCounter::new();
    let result = board.walk_and_save_langton_ant(&rule, 0, &mut counter);
    assert_eq!(result.termination, Termination::BudgetExhausted);
    assert_eq!(result.steps, 0);
    assert_eq!(counter.count, 0);
    for x in 0..5 {
        for y in 0..5 {
            assert_eq!(board.get((x, y)), 0);
        }
    }
}

#[test]
fn observer_called_once_per_committed_step() {
    let rule = Rule::new("L").expect("valid rule");
    let mut board = Board::new(5);
    let mut counter = StepCounter::new();
    let result = board.walk_and_save_langton_ant(&rule, 1_000, &mut counter);
    assert_eq!(result.termination, Termination::BudgetExhausted);
    assert_eq!(counter.count, result.steps);
}

#[test]
fn observer_count_matches_termination_mode() {
    let rule = Rule::new("LR").expect("valid rule");
    let mut board = Board::new(3);
    let mut counter = StepCounter::new();
    let result = board.walk_and_save_langton_ant(&rule, 100, &mut counter);
    match result.termination {
        Termination::ExitedBoundary => assert_eq!(counter.count, result.steps - 1),
        Termination::BudgetExhausted => assert_eq!(counter.count, result.steps),
    }
}

#[test]
fn bare_run_equals_observed_run() {
    let rule = Rule::new("LLRR").expect("valid rule");
    let mut bare = Board::new(9);
    let mut observed = Board::new(9);
    let mut counter = StepCounter::new();
    let bare_result = bare.walk_langton_ant(&rule, 500);
    let observed_result = observed.walk_and_save_langton_ant(&rule, 500, &mut counter);
    assert_eq!(bare_result, observed_result);
    for x in 0..9 {
        for y in 0..9 {
            assert_eq!(bare.get((x, y)), observed.get((x, y)));
        }
    }
}

#[test]
fn frame_recorder_keeps_every_third_frame() {
    let rule = Rule::new("L").expect("valid rule");
    let mut board = Board::new(5);
    let mut recorder = FrameRecorder::new(3);
    let result = board.walk_and_save_langton_ant(&rule, 10, &mut recorder);
    assert_eq!(result.termination, Termination::BudgetExhausted);
    // Committed steps 0 through 9: frames kept at 0, 3, 6 and 9.
    assert_eq!(recorder.frames.len(), 4);
    for frame in &recorder.frames {
        assert_eq!(frame.len(), 25);
        // Under rule "L" the only state is 0, so every snapshot is blank.
        assert!(frame.iter().all(|&cell| cell == 0));
    }
}

#[test]
fn snapshot_to_colors_maps_each_cell() {
    let mut board = Board::new(2);
    board.set((0, 0), 0);
    board.set((1, 0), 1);
    board.set((0, 1), 2);
    board.set((1, 1), 3);
    let colors = vec![
        [0, 0, 0, 255],
        [10, 10, 10, 255],
        [20, 20, 20, 255],
        [30, 30, 30, 255],
    ];
    let pixels = board.snapshot_to_colors(&colors);
    assert_eq!(pixels.len(), 4);
    // Raster order: the pixel for (x, y) stands at slot y * extent + x.
    assert_eq!(pixels[0], [0, 0, 0, 255]);
    assert_eq!(pixels[1], [10, 10, 10, 255]);
    assert_eq!(pixels[2], [20, 20, 20, 255]);
    assert_eq!(pixels[3], [30, 30, 30, 255]);
}

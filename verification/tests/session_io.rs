use ndlife::life::{Life, LiveSet, StandardRule, State};
use ndlife::point::Point;
use ndlife::session::{Direction, Playback, ScreenDimensions, Session, UserInput};

fn p2(a: i32, b: i32) -> Point {
    Point { x: vec![a, b] }
}

fn blinker_session(playback: Playback) -> Session<StandardRule> {
    let plate = vec!["", "", "", "", "", "....###"];
    let game = Life::from_plate_default_rules(2, &plate);
    Session::new(game, p2(5, 5), playback)
}

fn single_cell_session(playback: Playback) -> Session<StandardRule> {
    let mut cells = LiveSet::empty(2);
    cells.insert(p2(0, 0));
    Session::new(Life::new(cells, StandardRule), p2(0, 0), playback)
}

#[test]
fn key_codes_decode_to_commands() {
    assert_eq!(UserInput::new('q' as i32), UserInput::Exit);
    assert_eq!(UserInput::new('Q' as i32), UserInput::Exit);
    assert_eq!(UserInput::new('w' as i32), UserInput::Up);
    assert_eq!(UserInput::new('K' as i32), UserInput::Up);
    assert_eq!(UserInput::new('a' as i32), UserInput::Left);
    assert_eq!(UserInput::new('h' as i32), UserInput::Left);
    assert_eq!(UserInput::new('s' as i32), UserInput::Down);
    assert_eq!(UserInput::new('J' as i32), UserInput::Down);
    assert_eq!(UserInput::new('d' as i32), UserInput::Right);
    assert_eq!(UserInput::new('l' as i32), UserInput::Right);
    assert_eq!(UserInput::new(' ' as i32), UserInput::Pause);
    assert_eq!(UserInput::new('\n' as i32), UserInput::Step);
    assert_eq!(
        UserInput::new('1' as i32),
        UserInput::Move(Direction::Forward, 0)
    );
    assert_eq!(
        UserInput::new('!' as i32),
        UserInput::Move(Direction::Backwards, 0)
    );
    assert_eq!(
        UserInput::new('2' as i32),
        UserInput::Move(Direction::Backwards, 1)
    );
    assert_eq!(
        UserInput::new('@' as i32),
        UserInput::Move(Direction::Forward, 1)
    );
    assert_eq!(
        UserInput::new('0' as i32),
        UserInput::Move(Direction::Backwards, 9)
    );
    assert_eq!(
        UserInput::new(')' as i32),
        UserInput::Move(Direction::Forward, 9)
    );
    assert_eq!(UserInput::new('z' as i32), UserInput::Noop);
    assert_eq!(UserInput::new(7), UserInput::Noop);
    assert_eq!(UserInput::new(-1), UserInput::Noop);
}

#[test]
fn panning_moves_the_center() {
    let mut session = blinker_session(Playback::Step);
    assert!(!session.handle(UserInput::Right));
    assert_eq!(session.screen_center().x, vec![6, 5]);
    assert!(!session.handle(UserInput::Up));
    assert_eq!(session.screen_center().x, vec![6, 4]);
    assert!(!session.handle(UserInput::Move(Direction::Backwards, 0)));
    assert_eq!(session.screen_center().x, vec![5, 4]);
    assert!(!session.handle(UserInput::Down));
    assert!(!session.handle(UserInput::Left));
    assert_eq!(session.screen_center().x, vec![4, 5]);
}

#[test]
fn panning_an_absent_axis_is_ignored() {
    let mut session = blinker_session(Playback::Step);
    session.handle(UserInput::Move(Direction::Forward, 7));
    assert_eq!(session.screen_center().x, vec![5, 5]);
    session.update_position(Direction::Backwards, 2);
    assert_eq!(session.screen_center().x, vec![5, 5]);
}

#[test]
fn pause_toggles_playback() {
    let mut session = blinker_session(Playback::Play);
    session.handle(UserInput::Pause);
    assert_eq!(session.playback_mode(), Playback::Step);
    session.handle(UserInput::Pause);
    assert_eq!(session.playback_mode(), Playback::Play);
}

#[test]
fn step_request_is_valid_only_while_paused() {
    let mut playing = single_cell_session(Playback::Play);
    playing.handle(UserInput::Step);
    assert_eq!(playing.active_cells(), 1);

    let mut paused = single_cell_session(Playback::Step);
    paused.handle(UserInput::Step);
    assert_eq!(paused.active_cells(), 0);
}

#[test]
fn exit_is_reported_and_changes_nothing() {
    let mut session = blinker_session(Playback::Play);
    assert!(session.handle(UserInput::Exit));
    assert_eq!(session.active_cells(), 3);
    assert_eq!(session.playback_mode(), Playback::Play);
    assert_eq!(session.screen_center().x, vec![5, 5]);
    assert!(!session.handle(UserInput::Noop));
    assert_eq!(session.active_cells(), 3);
}

#[test]
fn session_step_advances_one_generation() {
    let mut session = blinker_session(Playback::Step);
    assert!(session.can_step());
    session.step();
    assert_eq!(session.active_cells(), 3);
    assert!(matches!(session.get(&p2(4, 5)), State::Alive));
    assert!(matches!(session.get(&p2(6, 5)), State::Alive));
    assert!(matches!(session.get(&p2(5, 4)), State::Dead));
}

#[test]
fn can_step_rejects_cells_at_the_integer_rim() {
    let mut cells = LiveSet::empty(2);
    cells.insert(p2(i32::MAX - 1, 0));
    let session = Session::new(Life::new(cells, StandardRule), p2(0, 0), Playback::Step);
    assert!(!session.can_step());
}

#[test]
fn can_step_rejects_overflowing_dimensionality() {
    let game = Life::new(LiveSet::empty(41), StandardRule);
    let session = Session::new(game, Point { x: vec![0; 41] }, Playback::Step);
    assert!(!session.can_step());
}

#[test]
fn screen_coordinates_map_to_board_positions() {
    let dims = ScreenDimensions::new(10, 6);
    assert_eq!(dims.width, 10);
    assert_eq!(dims.height, 6);
    assert_eq!(dims.radius_w, 5);
    assert_eq!(dims.radius_h, 3);
    let center = Point { x: vec![7, 9, 4] };
    let p = dims.screen_coordinate_to_board_position((0, 0), &center);
    assert_eq!(p.x, vec![2, 6, 4]);
    let q = dims.screen_coordinate_to_board_position((5, 3), &center);
    assert_eq!(q.x, vec![7, 9, 4]);
}

#[test]
fn render_draws_live_cells_as_hash_marks() {
    let session = blinker_session(Playback::Step);
    let dims = ScreenDimensions::new(7, 7);
    let rows = session.render(&dims);
    assert_eq!(rows.len(), 7);
    assert_eq!(rows[0], "       ");
    assert_eq!(rows[1], "       ");
    assert_eq!(rows[2], "   #   ");
    assert_eq!(rows[3], "   #   ");
    assert_eq!(rows[4], "   #   ");
    assert_eq!(rows[5], "       ");
    assert_eq!(rows[6], "       ");
}

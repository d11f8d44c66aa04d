//! The interactive session around one simulation: key decoding, viewport
//! panning, pause/step playback, and rendering a 2D window of the lattice
//! into rows of text. All I/O stays with the host; this module only decides.

use vstd::prelude::*;
use vstd::pervasive::VecAdditionalExecFns;
use crate::life::Life;
use crate::life::Rule;
use crate::life::State;
use crate::life::all_in_interior;
use crate::life::step_spec;
use crate::point::Point;
use crate::point::in_bounds;
use crate::point::pow3;

verus! {

/// Whether the animation advances on its own or only on request.
#[derive(Debug, Clone, Copy, PartialEq, Eq, Structural)]
pub enum Playback {
    Play,
    Step,
}

/// A panning direction along one axis.
#[derive(Debug, Clone, Copy, PartialEq, Eq, Structural)]
pub enum Direction {
    Forward,
    Backwards,
}

/// One decoded command from the host.
#[derive(Debug, Clone, Copy, PartialEq, Eq, Structural)]
pub enum UserInput {
    Up,
    Down,
    Left,
    Right,
    Move(Direction, usize),
    Pause,
    Step,
    Exit,
    Noop,
}

/// The command a key code stands for. Letters work in either case; anything
/// unrecognized is a no-op.
pub open spec fn command_for(code: u32) -> UserInput {
    if code == 'q' as u32 || code == 'Q' as u32 {
        UserInput::Exit
    } else if code == 'w' as u32 || code == 'W' as u32 || code == 'k' as u32 || code
        == 'K' as u32 {
        UserInput::Up
    } else if code == 'a' as u32 || code == 'A' as u32 || code == 'h' as u32 || code
        == 'H' as u32 {
        UserInput::Left
    } else if code == 's' as u32 || code == 'S' as u32 || code == 'j' as u32 || code
        == 'J' as u32 {
        UserInput::Down
    } else if code == 'd' as u32 || code == 'D' as u32 || code == 'l' as u32 || code
        == 'L' as u32 {
        UserInput::Right
    } else if code == ' ' as u32 {
        UserInput::Pause
    } else if code == '\n' as u32 {
        UserInput::Step
    } else if code == '1' as u32 {
        UserInput::Move(Direction::Forward, 0)
    } else if code == '!' as u32 {
        UserInput::Move(Direction::Backwards, 0)
    } else if code == '2' as u32 {
        UserInput::Move(Direction::Backwards, 1)
    } else if code == '@' as u32 {
        UserInput::Move(Direction::Forward, 1)
    } else if code == '3' as u32 {
        UserInput::Move(Direction::Backwards, 2)
    } else if code == '#' as u32 {
        UserInput::Move(Direction::Forward, 2)
    } else if code == '4' as u32 {
        UserInput::Move(Direction::Backwards, 3)
    } else if code == '$' as u32 {
        UserInput::Move(Direction::Forward, 3)
    } else if code == '5' as u32 {
        UserInput::Move(Direction::Backwards, 4)
    } else if code == '%' as u32 {
        UserInput::Move(Direction::Forward, 4)
    } else if code == '6' as u32 {
        UserInput::Move(Direction::Backwards, 5)
    } else if code == '^' as u32 {
        UserInput::Move(Direction::Forward, 5)
    } else if code == '7' as u32 {
        UserInput::Move(Direction::Backwards, 6)
    } else if code == '&' as u32 {
        UserInput::Move(Direction::Forward, 6)
    } else if code == '8' as u32 {
        UserInput::Move(Direction::Backwards, 7)
    } else if code == '*' as u32 {
        UserInput::Move(Direction::Forward, 7)
    } else if code == '9' as u32 {
        UserInput::Move(Direction::Backwards, 8)
    } else if code == '(' as u32 {
        UserInput::Move(Direction::Forward, 8)
    } else if code == '0' as u32 {
        UserInput::Move(Direction::Backwards, 9)
    } else if code == ')' as u32 {
        UserInput::Move(Direction::Forward, 9)
    } else {
        UserInput::Noop
    }
}

/// What a raw host key code decodes to: negative or invalid codes are
/// no-ops, anything else goes by its character.
pub open spec fn decode_input(input: i32) -> UserInput {
    if input < 0 {
        UserInput::Noop
    } else {
        command_for(input as u32)
    }
}

impl UserInput {
    /// Decode one raw key code from the host into a command.
    pub fn new(input: i32) -> (r: UserInput)
        ensures
            r == decode_input(input),
    {
        if input < 0 {
            return UserInput::Noop;
        }
        let code = input as u32;
        if code == 'q' as u32 || code == 'Q' as u32 {
            UserInput::Exit
        } else if code == 'w' as u32 || code == 'W' as u32 || code == 'k' as u32 || code
            == 'K' as u32 {
            UserInput::Up
        } else if code == 'a' as u32 || code == 'A' as u32 || code == 'h' as u32 || code
            == 'H' as u32 {
            UserInput::Left
        } else if code == 's' as u32 || code == 'S' as u32 || code == 'j' as u32 || code
            == 'J' as u32 {
            UserInput::Down
        } else if code == 'd' as u32 || code == 'D' as u32 || code == 'l' as u32 || code
            == 'L' as u32 {
            UserInput::Right
        } else if code == ' ' as u32 {
            UserInput::Pause
        } else if code == '\n' as u32 {
            UserInput::Step
        } else if code == '1' as u32 {
            UserInput::Move(Direction::Forward, 0)
        } else if code == '!' as u32 {
            UserInput::Move(Direction::Backwards, 0)
        } else if code == '2' as u32 {
            UserInput::Move(Direction::Backwards, 1)
        } else if code == '@' as u32 {
            UserInput::Move(Direction::Forward, 1)
        } else if code == '3' as u32 {
            UserInput::Move(Direction::Backwards, 2)
        } else if code == '#' as u32 {
            UserInput::Move(Direction::Forward, 2)
        } else if code == '4' as u32 {
            UserInput::Move(Direction::Backwards, 3)
        } else if code == '$' as u32 {
            UserInput::Move(Direction::Forward, 3)
        } else if code == '5' as u32 {
            UserInput::Move(Direction::Backwards, 4)
        } else if code == '%' as u32 {
            UserInput::Move(Direction::Forward, 4)
        } else if code == '6' as u32 {
            UserInput::Move(Direction::Backwards, 5)
        } else if code == '^' as u32 {
            UserInput::Move(Direction::Forward, 5)
        } else if code == '7' as u32 {
            UserInput::Move(Direction::Backwards, 6)
        } else if code == '&' as u32 {
            UserInput::Move(Direction::Forward, 6)
        } else if code == '8' as u32 {
            UserInput::Move(Direction::Backwards, 7)
        } else if code == '*' as u32 {
            UserInput::Move(Direction::Forward, 7)
        } else if code == '9' as u32 {
            UserInput::Move(Direction::Backwards, 8)
        } else if code == '(' as u32 {
            UserInput::Move(Direction::Forward, 8)
        } else if code == '0' as u32 {
            UserInput::Move(Direction::Backwards, 9)
        } else if code == ')' as u32 {
            UserInput::Move(Direction::Forward, 9)
        } else {
            UserInput::Noop
        }
    }
}

/// The terminal's extent, with the half-extents used to center the viewport.
pub struct ScreenDimensions {
    pub width: i32,
    pub height: i32,
    pub radius_w: i32,
    pub radius_h: i32,
}

impl ScreenDimensions {
    /// Dimensions of a `width` by `height` cell terminal.
    pub fn new(width: usize, height: usize) -> (r: ScreenDimensions)
        requires
            width <= i32::MAX,
            height <= i32::MAX,
        ensures
            r.width == width as i32,
            r.height == height as i32,
            r.radius_w as int == width as int / 2,
            r.radius_h as int == height as int / 2,
    {
        let rw = width / 2;
        let rh = height / 2;
        ScreenDimensions {
            width: width as i32,
            height: height as i32,
            radius_w: rw as i32,
            radius_h: rh as i32,
        }
    }

    /// Map a screen cell to the lattice coordinate it shows, given the board
    /// coordinate at the viewport's center: screen x offsets axis 0 and
    /// screen y offsets axis 1, each relative to the matching half-extent.
    pub fn screen_coordinate_to_board_position(
        &self,
        screen_position: (i32, i32),
        board_center: &Point,
    ) -> (r: Point)
        requires
            board_center@.len() >= 2,
            i32::MIN <= board_center@[0] - self.radius_w + screen_position.0 <= i32::MAX,
            i32::MIN <= board_center@[1] - self.radius_h + screen_position.1 <= i32::MAX,
        ensures
            r@ == screen_cell(
                board_center@,
                self.radius_w as int,
                self.radius_h as int,
                screen_position.0 as int,
                screen_position.1 as int,
            ),
    {
        let (w, h) = screen_position;
        let gx = board_center.x[0] as i64 - self.radius_w as i64 + w as i64;
        let gy = board_center.x[1] as i64 - self.radius_h as i64 + h as i64;
        let mut point = board_center.clone();
        point.x.set(0, gx as i32);
        point.x.set(1, gy as i32);
        proof {
            assert(point@ =~= screen_cell(
                board_center@,
                self.radius_w as int,
                self.radius_h as int,
                w as int,
                h as int,
            ));
        }
        point
    }
}

/// Relies on String::push: appends exactly the one character to the end.
#[verifier::external_body]
fn push_char(s: &mut String, c: char)
    ensures
        final(s)@ == old(s)@.push(c),
{
    s.push(c)
}

/// The lattice coordinate shown at screen position `(x, y)` for a viewport
/// centered on `center` with half-extents `rw`, `rh`.
pub open spec fn screen_cell(center: Seq<i32>, rw: int, rh: int, x: int, y: int) -> Seq<i32> {
    center.update(0, (center[0] - rw + x) as i32).update(1, (center[1] - rh + y) as i32)
}

/// The center coordinate panned one step along `axis`; an axis the lattice
/// does not have leaves it unchanged.
pub open spec fn pan(center: Seq<i32>, axis: int, delta: int) -> Seq<i32> {
    if 0 <= axis < center.len() {
        center.update(axis, (center[axis] + delta) as i32)
    } else {
        center
    }
}

/// The unit delta a panning direction stands for.
pub open spec fn dir_delta(direction: Direction) -> int {
    match direction {
        Direction::Forward => 1,
        Direction::Backwards => -1,
    }
}

/// The other playback mode.
pub open spec fn toggled(p: Playback) -> Playback {
    match p {
        Playback::Play => Playback::Step,
        Playback::Step => Playback::Play,
    }
}

/// One interactive session: the simulation, the viewport center, and the
/// playback mode.
pub struct Session<R: Rule> {
    game: Life<R>,
    screen_center: Point,
    playback: Playback,
}

impl<R: Rule> Session<R> {
    /// Well-formed: the simulation is, and the viewport center has the
    /// lattice's dimensionality.
    pub closed spec fn wf(&self) -> bool {
        &&& self.game.wf()
        &&& self.screen_center@.len() == self.game.dim()
    }

    /// The current live-set.
    pub closed spec fn game_view(&self) -> Set<Seq<i32>> {
        self.game@
    }

    /// The viewport's center coordinate.
    pub closed spec fn center(&self) -> Seq<i32> {
        self.screen_center@
    }

    /// The current playback mode.
    pub closed spec fn playback(&self) -> Playback {
        self.playback
    }

    /// The simulation's rule.
    pub closed spec fn rule(&self) -> R {
        self.game.rule()
    }

    /// The lattice's dimensionality.
    pub closed spec fn dim(&self) -> nat {
        self.game.dim()
    }

    /// A session over `game`, looking at `screen_center`, in `playback` mode.
    pub fn new(game: Life<R>, screen_center: Point, playback: Playback) -> (s: Session<R>)
        requires
            game.wf(),
            screen_center@.len() == game.dim(),
        ensures
            s.wf(),
            s.game_view() == game@,
            s.center() == screen_center@,
            s.playback() == playback,
            s.rule() == game.rule(),
            s.dim() == game.dim(),
    {
        Session { game, screen_center, playback }
    }

    /// Point lookup in the current generation.
    pub fn get(&self, point: &Point) -> (s: State)
        ensures
            s is Alive <==> self.game_view().contains(point@),
    {
        self.game.get(point)
    }

    /// The number of currently live cells.
    pub fn active_cells(&self) -> (n: usize)
        requires
            self.wf(),
        ensures
            n == self.game_view().len(),
    {
        self.game.active_cells()
    }

    /// The viewport's center coordinate, for status display.
    pub fn screen_center(&self) -> (p: &Point)
        ensures
            p@ == self.center(),
    {
        &self.screen_center
    }

    /// The current playback mode.
    pub fn playback_mode(&self) -> (p: Playback)
        ensures
            p == self.playback(),
    {
        self.playback
    }

    /// Whether one generation step is possible without a coordinate leaving
    /// the machine's integer range.
    pub fn can_step(&self) -> (b: bool)
        requires
            self.wf(),
        ensures
            b == (all_in_interior(self.game_view()) && pow3(self.dim()) <= usize::MAX),
    {
        let fits = crate::point::pow3_fits(self.game.dimension());
        if !fits {
            return false;
        }
        self.game.all_cells_in_interior()
    }

    /// Pan the viewport one step along `dimension`. An axis the lattice does
    /// not have is silently ignored, by design.
    pub fn update_position(&mut self, direction: Direction, dimension: usize)
        requires
            old(self).wf(),
            in_bounds(old(self).center()),
        ensures
            final(self).wf(),
            final(self).center() == pan(old(self).center(), dimension as int, dir_delta(direction)),
            final(self).game_view() == old(self).game_view(),
            final(self).playback() == old(self).playback(),
            final(self).rule() == old(self).rule(),
            final(self).dim() == old(self).dim(),
    {
        if dimension >= self.screen_center.x.len() {
            return;
        }
        let delta: i32 = match direction {
            Direction::Forward => 1,
            Direction::Backwards => -1,
        };
        let moved = self.screen_center.x[dimension] + delta;
        self.screen_center.x.set(dimension, moved);
        proof {
            assert(self.screen_center@ =~= pan(
                old(self).center(),
                dimension as int,
                dir_delta(direction),
            ));
        }
    }

    /// Advance the simulation one generation.
    pub fn step(&mut self)
        requires
            old(self).wf(),
            all_in_interior(old(self).game_view()),
            pow3(old(self).dim()) <= usize::MAX,
        ensures
            final(self).wf(),
            final(self).game_view() == step_spec(old(self).game_view(), old(self).rule()),
            final(self).center() == old(self).center(),
            final(self).playback() == old(self).playback(),
            final(self).rule() == old(self).rule(),
            final(self).dim() == old(self).dim(),
    {
        let stepped = self.game.next();
        self.game = stepped;
    }

    /// React to one decoded command: pan, toggle playback, advance one
    /// generation while paused, or report that the host should exit.
    pub fn handle(&mut self, input: UserInput) -> (exit: bool)
        requires
            old(self).wf(),
            in_bounds(old(self).center()),
            input is Step && old(self).playback() is Step ==> all_in_interior(
                old(self).game_view(),
            ) && pow3(old(self).dim()) <= usize::MAX,
        ensures
            final(self).wf(),
            final(self).rule() == old(self).rule(),
            final(self).dim() == old(self).dim(),
            exit == (input is Exit),
            match input {
                UserInput::Up => final(self).center() == pan(old(self).center(), 1, -1)
                    && final(self).game_view() == old(self).game_view() && final(self).playback()
                    == old(self).playback(),
                UserInput::Down => final(self).center() == pan(old(self).center(), 1, 1)
                    && final(self).game_view() == old(self).game_view() && final(self).playback()
                    == old(self).playback(),
                UserInput::Left => final(self).center() == pan(old(self).center(), 0, -1)
                    && final(self).game_view() == old(self).game_view() && final(self).playback()
                    == old(self).playback(),
                UserInput::Right => final(self).center() == pan(old(self).center(), 0, 1)
                    && final(self).game_view() == old(self).game_view() && final(self).playback()
                    == old(self).playback(),
                UserInput::Move(dir, dim) => final(self).center() == pan(
                    old(self).center(),
                    dim as int,
                    dir_delta(dir),
                ) && final(self).game_view() == old(self).game_view() && final(self).playback()
                    == old(self).playback(),
                UserInput::Pause => final(self).playback() == toggled(old(self).playback())
                    && final(self).game_view() == old(self).game_view() && final(self).center()
                    == old(self).center(),
                UserInput::Step => final(self).center() == old(self).center() && final(self).playback() == old(self).playback() && (if old(self).playback() is Step {
                    final(self).game_view() == step_spec(old(self).game_view(), old(self).rule())
                } else {
                    final(self).game_view() == old(self).game_view()
                }),
                UserInput::Exit => final(self).game_view() == old(self).game_view() && final(self).center() == old(self).center() && final(self).playback() == old(self).playback(),
                UserInput::Noop => final(self).game_view() == old(self).game_view() && final(self).center() == old(self).center() && final(self).playback() == old(self).playback(),
            },
    {
        match input {
            UserInput::Up => {
                self.update_position(Direction::Backwards, 1);
                false
            },
            UserInput::Down => {
                self.update_position(Direction::Forward, 1);
                false
            },
            UserInput::Left => {
                self.update_position(Direction::Backwards, 0);
                false
            },
            UserInput::Right => {
                self.update_position(Direction::Forward, 0);
                false
            },
            UserInput::Move(dir, dim) => {
                self.update_position(dir, dim);
                false
            },
            UserInput::Pause => {
                self.playback = match self.playback {
                    Playback::Play => Playback::Step,
                    Playback::Step => Playback::Play,
                };
                false
            },
            UserInput::Step => {
                match self.playback {
                    Playback::Play => {},
                    Playback::Step => {
                        self.step();
                    },
                }
                false
            },
            UserInput::Exit => true,
            UserInput::Noop => false,
        }
    }
}

impl<R: Rule> Session<R> {
    /// The character the viewport shows at screen position `(x, y)`.
    pub open spec fn render_char(&self, rw: int, rh: int, x: int, y: int) -> char {
        if self.game_view().contains(screen_cell(self.center(), rw, rh, x, y)) {
            '#'
        } else {
            ' '
        }
    }

    /// Render the viewport as `dims.height` rows of `dims.width` characters:
    /// `'#'` where the shown lattice cell is alive, `' '` where it is dead.
    #[verifier::loop_isolation(false)]
    pub fn render(&self, dims: &ScreenDimensions) -> (rows: Vec<String>)
        requires
            self.wf(),
            self.dim() >= 2,
            0 <= dims.width,
            0 <= dims.height,
            i32::MIN <= self.center()[0] - dims.radius_w,
            self.center()[0] - dims.radius_w + dims.width <= i32::MAX,
            i32::MIN <= self.center()[1] - dims.radius_h,
            self.center()[1] - dims.radius_h + dims.height <= i32::MAX,
        ensures
            rows@.len() == dims.height as int,
            forall|y: int|
                0 <= y < dims.height ==> (#[trigger] rows@[y])@.len() == dims.width as int,
            forall|y: int, x: int|
                #![trigger rows@[y]@[x]]
                0 <= y < dims.height && 0 <= x < dims.width ==> rows@[y]@[x]
                    == self.render_char(dims.radius_w as int, dims.radius_h as int, x, y),
    {
        let mut rows: Vec<String> = Vec::new();
        let mut y: i32 = 0;
        while y < dims.height
            invariant
                0 <= y <= dims.height,
                rows@.len() == y as int,
                forall|yy: int|
                    0 <= yy < y ==> (#[trigger] rows@[yy])@.len() == dims.width as int,
                forall|yy: int, x: int|
                    #![trigger rows@[yy]@[x]]
                    0 <= yy < y && 0 <= x < dims.width ==> rows@[yy]@[x]
                        == self.render_char(dims.radius_w as int, dims.radius_h as int, x, yy),
            decreases dims.height - y,
        {
            let mut row = String::new();
            let mut x: i32 = 0;
            while x < dims.width
                invariant
                    0 <= x <= dims.width,
                    0 <= y < dims.height,
                    row@.len() == x as int,
                    forall|xx: int|
                        0 <= xx < x ==> (#[trigger] row@[xx]) == self.render_char(
                            dims.radius_w as int,
                            dims.radius_h as int,
                            xx,
                            y as int,
                        ),
                decreases dims.width - x,
            {
                let point = dims.screen_coordinate_to_board_position((x, y), &self.screen_center);
                let ch = match self.game.get(&point) {
                    State::Alive => '#',
                    State::Dead => ' ',
                };
                push_char(&mut row, ch);
                x += 1;
            }
            rows.push(row);
            y += 1;
        }
        rows
    }
}

} // verus!

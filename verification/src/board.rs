//! The grid, the rule table, the direction algebra, and the step loop.

use vstd::prelude::*;

verus! {

/// A facing direction of the agent: one of the four cardinal points.
#[derive(Clone, Copy, Debug, PartialEq, Eq, Structural)]
pub enum Direction {
    North,
    South,
    West,
    East,
}

/// The quarter turn to the left: North -> West -> South -> East -> North.
pub open spec fn spec_turn_left(d: Direction) -> Direction {
    match d {
        Direction::North => Direction::West,
        Direction::West => Direction::South,
        Direction::South => Direction::East,
        Direction::East => Direction::North,
    }
}

/// The quarter turn to the right: North -> East -> South -> West -> North.
pub open spec fn spec_turn_right(d: Direction) -> Direction {
    match d {
        Direction::North => Direction::East,
        Direction::East => Direction::South,
        Direction::South => Direction::West,
        Direction::West => Direction::North,
    }
}

impl Direction {
    /// Rotate a quarter turn counterclockwise.
    pub fn turn_left(self) -> (r: Self)
        ensures
            r == spec_turn_left(self),
    {
        match self {
            Self::North => Self::West,
            Self::West => Self::South,
            Self::South => Self::East,
            Self::East => Self::North,
        }
    }

    /// Rotate a quarter turn clockwise.
    pub fn turn_right(self) -> (r: Self)
        ensures
            r == spec_turn_right(self),
    {
        match self {
            Self::North => Self::East,
            Self::East => Self::South,
            Self::South => Self::West,
            Self::West => Self::North,
        }
    }
}

/// Four left turns return every direction to itself: the turns generate a
/// rotation group of order four.
pub proof fn lemma_turn_left_period(d: Direction)
    ensures
        spec_turn_left(spec_turn_left(spec_turn_left(spec_turn_left(d)))) == d,
{
}

/// Four right turns return every direction to itself.
pub proof fn lemma_turn_right_period(d: Direction)
    ensures
        spec_turn_right(spec_turn_right(spec_turn_right(spec_turn_right(d)))) == d,
{
}

/// One turn-directive of a rule.
#[derive(Clone, Copy, Debug, PartialEq, Eq, Structural)]
pub enum Element {
    Left,
    Right,
}

/// The error returned when a rule description is not a usable rule text.
#[derive(Debug, Clone, PartialEq, Eq, Structural)]
pub struct RuleParseError;

/// The largest state cardinality a rule may have: cell states are stored in
/// a `u8`, so the values 0 through N - 1 must all fit in one byte.
pub const MAX_STATES: usize = 256;

/// An ordered sequence of turn-directives. Its length N is the cell-state
/// cardinality: cell values range over 0 .. N - 1, and the directive at
/// index v tells the agent how to turn when the cell it arrives on holds v.
#[derive(Debug, Clone)]
pub struct Rule {
    elements: Vec<Element>,
}

impl View for Rule {
    type V = Seq<Element>;

    closed spec fn view(&self) -> Seq<Element> {
        self.elements@
    }
}

/// Whether a rule text is acceptable: non-empty, within the `u8` state
/// cardinality, and made of the turn symbols 'L' and 'R' alone.
pub open spec fn valid_rule_text(text: Seq<char>) -> bool {
    &&& 1 <= text.len() <= MAX_STATES
    &&& forall|i: int| 0 <= i < text.len() ==> (text[i] == 'L' || text[i] == 'R')
}

/// The directive that a turn symbol denotes.
pub open spec fn directive_of(c: char) -> Element {
    if c == 'L' {
        Element::Left
    } else {
        Element::Right
    }
}

impl Rule {
    /// A parsed rule is non-empty and small enough that every state fits in
    /// a `u8` cell.
    pub open spec fn wf(&self) -> bool {
        1 <= self@.len() <= MAX_STATES
    }

    /// Parse a rule from its textual description: one turn-directive per
    /// character, 'L' for a left turn and 'R' for a right turn. Parsing
    /// fails on any other character, on the empty text (a rule of
    /// cardinality 0 would make the modular state advance undefined), and
    /// on a text longer than `MAX_STATES` (its states could not all be
    /// stored in a `u8` cell).
    pub fn new(desc: &str) -> (r: Result<Self, RuleParseError>)
        ensures
            r is Ok <==> valid_rule_text(desc@),
            r is Ok ==> {
                let rule = r->Ok_0;
                &&& rule.wf()
                &&& rule@.len() == desc@.len()
                &&& forall|i: int| 0 <= i < desc@.len() ==> rule@[i] == directive_of(desc@[i])
            },
    {
        let n = desc.unicode_len();
        if n == 0 || n > MAX_STATES {
            return Err(RuleParseError);
        }
        let mut elements: Vec<Element> = Vec::new();
        let mut i: usize = 0;
        while i < n
            invariant
                n == desc@.len(),
                1 <= n <= MAX_STATES,
                i <= n,
                elements@.len() == i,
                forall|j: int| 0 <= j < i ==> (desc@[j] == 'L' || desc@[j] == 'R'),
                forall|j: int| 0 <= j < i ==> elements@[j] == directive_of(desc@[j]),
            decreases n - i,
        {
            let character = desc.get_char(i);
            if character == 'L' {
                elements.push(Element::Left);
            } else if character == 'R' {
                elements.push(Element::Right);
            } else {
                return Err(RuleParseError);
            }
            i = i + 1;
        }
        Ok(Rule { elements })
    }

    /// The rule written back as text, one turn symbol per directive.
    pub fn text(&self) -> (r: String)
        ensures
            r@.len() == self@.len(),
            forall|i: int|
                0 <= i < self@.len() ==> r@[i] == (if self@[i] == Element::Left {
                    'L'
                } else {
                    'R'
                }),
    {
        let mut out = String::new();
        let n = self.elements.len();
        let mut i: usize = 0;
        while i < n
            invariant
                n == self@.len(),
                i <= n,
                out@.len() == i,
                forall|j: int|
                    0 <= j < i ==> out@[j] == (if self@[j] == Element::Left {
                        'L'
                    } else {
                        'R'
                    }),
            decreases n - i,
        {
            proof {
                reveal_strlit("L");
                reveal_strlit("R");
            }
            match self.elements[i] {
                Element::Left => out.append("L"),
                Element::Right => out.append("R"),
            }
            i = i + 1;
        }
        out
    }

    /// The state cardinality N of this rule.
    pub fn len(&self) -> (r: usize)
        ensures
            r == self@.len(),
    {
        self.elements.len()
    }

    /// The cyclic state advance: every step takes a cell's value to
    /// `(value + 1) mod N`, whatever directive stands at that index.
    pub fn next_value(&self, value: u8) -> (r: u8)
        requires
            self.wf(),
        ensures
            r as int == (value as int + 1) % (self@.len() as int),
            (r as int) < self@.len(),
    {
        let n = self.elements.len();
        let next = ((value as usize) + 1) % n;
        proof {
            assert(next < n);
            assert(next < 256);
        }
        next as u8
    }

    /// Apply the directive at index `value` to the current direction.
    pub fn next_direction(&self, value: u8, direction: Direction) -> (r: Direction)
        requires
            self.wf(),
            (value as int) < self@.len(),
        ensures
            r == spec_next_direction(self@, value, direction),
    {
        match self.elements[value as usize] {
            Element::Left => direction.turn_left(),
            Element::Right => direction.turn_right(),
        }
    }
}

/// The direction the agent faces after arriving on a cell that holds
/// `value`: the directive at index `value` applied to its direction.
pub open spec fn spec_next_direction(rule: Seq<Element>, value: u8, d: Direction) -> Direction {
    match rule[value as int] {
        Element::Left => spec_turn_left(d),
        Element::Right => spec_turn_right(d),
    }
}

/// The state reached from `value` by `count` applications of the cyclic
/// state advance of a rule of length `len`.
pub open spec fn iterate_next_value(len: int, value: int, count: nat) -> int
    decreases count,
{
    if count == 0 {
        value
    } else {
        (iterate_next_value(len, value, (count - 1) as nat) + 1) % len
    }
}

proof fn lemma_iterate_next_value_shift(len: int, value: int, count: nat)
    requires
        1 <= len,
        0 <= value < len,
    ensures
        iterate_next_value(len, value, count) == (value + count) % len,
    decreases count,
{
    if count == 0 {
        vstd::arithmetic::div_mod::lemma_small_mod(value as nat, len as nat);
    } else {
        lemma_iterate_next_value_shift(len, value, (count - 1) as nat);
        let prev = (value + count - 1) % len;
        vstd::arithmetic::div_mod::lemma_add_mod_noop(value + count - 1, 1, len);
        if len == 1 {
            vstd::arithmetic::div_mod::lemma_small_mod(0, 1);
        } else {
            vstd::arithmetic::div_mod::lemma_small_mod(1, len as nat);
        }
        assert((prev + 1int % len) % len == (value + count) % len);
        if len == 1 {
            assert(iterate_next_value(len, value, count) == (prev + 1) % len);
            vstd::arithmetic::div_mod::lemma_mod_multiples_vanish(prev + 1, 0, 1);
        }
    }
}

/// The cyclic state advance has period N: advancing any starting value
/// exactly N times through a rule of length N returns to that value, so the
/// advance is a bijection on { 0, ..., N - 1 }.
pub proof fn lemma_next_value_period(len: int, value: int)
    requires
        1 <= len,
        0 <= value < len,
    ensures
        iterate_next_value(len, value, len as nat) == value,
{
    lemma_iterate_next_value_shift(len, value, len as nat);
    vstd::arithmetic::div_mod::lemma_mod_multiples_vanish(1, value, len);
    vstd::arithmetic::div_mod::lemma_small_mod(value as nat, len as nat);
}

/// The flat slot that the coordinate pair (x, y) maps to. The mapping is
/// fixed at construction time and is a bijection between the coordinate
/// square and the slots 0 .. size * size.
pub open spec fn cell_index(size: int, x: int, y: int) -> int {
    x * size + y
}

/// Whether the pair (x, y) denotes a cell of a square grid of side `size`.
pub open spec fn within(size: int, x: int, y: int) -> bool {
    0 <= x < size && 0 <= y < size
}

proof fn lemma_cell_index_in_range(size: int, x: int, y: int)
    requires
        within(size, x, y),
    ensures
        0 <= cell_index(size, x, y) < size * size,
{
    assert(0 <= x * size + y < size * size) by (nonlinear_arith)
        requires
            0 <= x < size,
            0 <= y < size,
    {
    }
}

/// A square grid of cells, each holding one small unsigned state value.
#[derive(Debug)]
pub struct Board {
    size: u32,
    data: Vec<u8>,
}

impl Board {
    /// The side length of the square region.
    pub closed spec fn extent(&self) -> u32 {
        self.size
    }

    /// The stored states, one slot per coordinate pair.
    pub closed spec fn cells(&self) -> Seq<u8> {
        self.data@
    }

    /// A board is well formed when its side is positive, its area fits the
    /// index arithmetic, and it owns exactly one slot per coordinate.
    pub open spec fn wf(&self) -> bool {
        &&& 1 <= self.extent()
        &&& self.extent() * self.extent() <= u32::MAX
        &&& self.cells().len() == self.extent() * self.extent()
    }

    /// Allocate a `size` by `size` grid with every cell set to 0.
    pub fn new(size: u32) -> (r: Self)
        requires
            1 <= size,
            size * size <= u32::MAX,
        ensures
            r.wf(),
            r.extent() == size,
            forall|i: int| 0 <= i < r.cells().len() ==> r.cells()[i] == 0,
    {
        let count = (size * size) as usize;
        let mut data: Vec<u8> = Vec::new();
        let mut i: usize = 0;
        while i < count
            invariant
                i <= count,
                data@.len() == i,
                forall|j: int| 0 <= j < i ==> data@[j] == 0,
            decreases count - i,
        {
            data.push(0);
            i = i + 1;
        }
        Board { size, data }
    }

    fn xy_to_index(&self, coordinates: (u32, u32)) -> (r: usize)
        requires
            self.wf(),
            within(self.extent() as int, coordinates.0 as int, coordinates.1 as int),
        ensures
            r == cell_index(self.extent() as int, coordinates.0 as int, coordinates.1 as int),
            r < self.cells().len(),
    {
        let (x, y) = coordinates;
        proof {
            lemma_cell_index_in_range(
                self.extent() as int,
                x as int,
                y as int,
            );
        }
        (x * self.size + y) as usize
    }

    /// The stored state at a coordinate pair.
    pub fn get(&self, coordinates: (u32, u32)) -> (r: u8)
        requires
            self.wf(),
            within(self.extent() as int, coordinates.0 as int, coordinates.1 as int),
        ensures
            r == self.cells()[cell_index(
                self.extent() as int,
                coordinates.0 as int,
                coordinates.1 as int,
            )],
    {
        let i = self.xy_to_index(coordinates);
        self.data[i]
    }

    /// Overwrite the stored state at a coordinate pair.
    pub fn set(&mut self, coordinates: (u32, u32), value: u8)
        requires
            old(self).wf(),
            within(old(self).extent() as int, coordinates.0 as int, coordinates.1 as int),
        ensures
            final(self).wf(),
            final(self).extent() == old(self).extent(),
            final(self).cells() == old(self).cells().update(
                cell_index(
                    old(self).extent() as int,
                    coordinates.0 as int,
                    coordinates.1 as int,
                ),
                value,
            ),
    {
        let i = self.xy_to_index(coordinates);
        self.data[i] = value;
    }

    /// A copy of the stored states, for an observer that consumes a grid
    /// snapshot after the run has moved on.
    pub fn snapshot(&self) -> (r: Vec<u8>)
        ensures
            r@ == self.cells(),
    {
        let mut copy: Vec<u8> = Vec::new();
        let mut i: usize = 0;
        let n = self.data.len();
        while i < n
            invariant
                n == self.cells().len(),
                i <= n,
                copy@.len() == i,
                forall|j: int| 0 <= j < i ==> copy@[j] == self.cells()[j],
            decreases n - i,
        {
            copy.push(self.data[i]);
            i = i + 1;
        }
        proof {
            assert(copy@ =~= self.cells());
        }
        copy
    }

    /// For every coordinate, the pixel that the color table assigns to the
    /// stored state there. The result is in raster order: the pixel for the
    /// coordinate (x, y) stands at slot y * extent + x, one row of the
    /// image after another. This is the only interface the grid exposes
    /// toward the rendering collaborator; it performs no output itself.
    pub fn snapshot_to_colors(&self, colors: &Vec<[u8; 4]>) -> (r: Vec<[u8; 4]>)
        requires
            self.wf(),
            forall|i: int| 0 <= i < self.cells().len() ==> (self.cells()[i] as int) < colors@.len(),
        ensures
            r@.len() == self.extent() * self.extent(),
            forall|x: int, y: int| within(self.extent() as int, x, y) ==> r@[y * self.extent()
                + x] == colors@[self.cells()[cell_index(self.extent() as int, x, y)] as int],
    {
        let size = self.size;
        let ghost s = size as int;
        let mut pixels: Vec<[u8; 4]> = Vec::new();
        let mut y: u32 = 0;
        while y < size
            invariant
                self.wf(),
                size == self.extent(),
                s == size as int,
                forall|i: int| 0 <= i < self.cells().len() ==> (self.cells()[i] as int)
                    < colors@.len(),
                y <= size,
                pixels@.len() == y * s,
                forall|xx: int, yy: int|
                    0 <= xx < s && 0 <= yy < y ==> pixels@[yy * s + xx]
                        == colors@[self.cells()[cell_index(s, xx, yy)] as int],
            decreases size - y,
        {
            let mut x: u32 = 0;
            while x < size
                invariant
                    self.wf(),
                    size == self.extent(),
                    s == size as int,
                    forall|i: int| 0 <= i < self.cells().len() ==> (self.cells()[i] as int)
                        < colors@.len(),
                    y < size,
                    x <= size,
                    pixels@.len() == y * s + x,
                    forall|xx: int, yy: int|
                        (0 <= xx < s && 0 <= yy < y) || (0 <= xx < x && yy == y)
                            ==> pixels@[yy * s + xx]
                            == colors@[self.cells()[cell_index(s, xx, yy)] as int],
                decreases size - x,
            {
                let v = self.get((x, y));
                proof {
                    lemma_cell_index_in_range(s, x as int, y as int);
                }
                let pixel = colors[v as usize];
                pixels.push(pixel);
                proof {
                    assert forall|xx: int, yy: int|
                        (0 <= xx < s && 0 <= yy < y) || (0 <= xx < x + 1 && yy == y)
                            implies pixels@[yy * s + xx]
                            == colors@[self.cells()[cell_index(s, xx, yy)] as int] by {
                        lemma_raster_order(s, xx, yy, x as int, y as int);
                    }
                }
                x = x + 1;
            }
            proof {
                assert((y + 1) * s == y * s + s) by (nonlinear_arith);
            }
            y = y + 1;
        }
        pixels
    }
}

proof fn lemma_raster_order(size: int, xx: int, yy: int, x: int, y: int)
    requires
        0 <= x < size,
        0 <= y < size,
        (0 <= xx < size && 0 <= yy < y) || (0 <= xx <= x && yy == y),
    ensures
        0 <= yy * size + xx <= y * size + x,
        yy * size + xx == y * size + x ==> xx == x && yy == y,
{
    assert((0 <= yy * size + xx <= y * size + x) && (yy * size + xx == y * size + x ==> xx == x
        && yy == y)) by (nonlinear_arith)
        requires
            0 <= x < size,
            0 <= y < size,
            (0 <= xx < size && 0 <= yy < y) || (0 <= xx <= x && yy == y),
    {
    }
}

/// How a run ended: the agent stepped off the grid, or the step budget ran
/// out. Both states are terminal.
#[derive(Clone, Copy, Debug, PartialEq, Eq, Structural)]
pub enum Termination {
    ExitedBoundary,
    BudgetExhausted,
}

/// What a run reports back: how it ended, and how many steps executed. A
/// step counts as executed when its cell advance was committed; on a
/// boundary exit the final step advanced the cell the agent stood on but
/// committed no move, so the executed steps exceed the committed moves by
/// one.
#[derive(Clone, Copy, Debug, PartialEq, Eq, Structural)]
pub struct RunResult {
    pub termination: Termination,
    pub steps: u64,
}

/// The agent and grid state between steps: the cell states, the agent's
/// position, and its facing direction.
pub ghost struct AntState {
    pub cells: Seq<u8>,
    pub x: int,
    pub y: int,
    pub direction: Direction,
}

/// Everything a finished run left behind: the final cell states, where the
/// agent last stood, its last direction, how the run ended, and how many
/// steps executed.
pub ghost struct RunTrace {
    pub cells: Seq<u8>,
    pub x: int,
    pub y: int,
    pub direction: Direction,
    pub termination: Termination,
    pub steps: nat,
}

/// The candidate position one unit from (x, y) along `d`: North increases
/// y, South decreases it, East increases x, West decreases it.
pub open spec fn forward(d: Direction, x: int, y: int) -> (int, int) {
    match d {
        Direction::North => (x, y + 1),
        Direction::South => (x, y - 1),
        Direction::East => (x + 1, y),
        Direction::West => (x - 1, y),
    }
}

/// The value the cyclic state advance writes over `value`.
pub open spec fn advanced_value(rule: Seq<Element>, value: u8) -> u8 {
    (((value as int) + 1) % (rule.len() as int)) as u8
}

/// The cell states after the agent marks the cell it stands on.
pub open spec fn flip_cell(rule: Seq<Element>, size: int, s: AntState) -> Seq<u8> {
    s.cells.update(
        cell_index(size, s.x, s.y),
        advanced_value(rule, s.cells[cell_index(size, s.x, s.y)]),
    )
}

/// The whole run, one step at a time, from the state `s` with `budget`
/// steps left. Each step advances the cell the agent stands on, then tries
/// to move: a move off the grid ends the run at once with
/// `ExitedBoundary` (the advance stays, the move and the turn do not);
/// a committed move is followed by a turn directed by the value on the
/// cell the agent arrived on. A run that commits every move ends with
/// `BudgetExhausted` after exactly `budget` steps.
pub open spec fn run_from(rule: Seq<Element>, size: int, s: AntState, budget: nat) -> RunTrace
    decreases budget,
{
    if budget == 0 {
        RunTrace {
            cells: s.cells,
            x: s.x,
            y: s.y,
            direction: s.direction,
            termination: Termination::BudgetExhausted,
            steps: 0,
        }
    } else {
        let flipped = flip_cell(rule, size, s);
        let candidate = forward(s.direction, s.x, s.y);
        if !within(size, candidate.0, candidate.1) {
            RunTrace {
                cells: flipped,
                x: s.x,
                y: s.y,
                direction: s.direction,
                termination: Termination::ExitedBoundary,
                steps: 1,
            }
        } else {
            let arrived = flipped[cell_index(size, candidate.0, candidate.1)];
            let next = AntState {
                cells: flipped,
                x: candidate.0,
                y: candidate.1,
                direction: spec_next_direction(rule, arrived, s.direction),
            };
            let rest = run_from(rule, size, next, (budget - 1) as nat);
            RunTrace {
                cells: rest.cells,
                x: rest.x,
                y: rest.y,
                direction: rest.direction,
                termination: rest.termination,
                steps: rest.steps + 1,
            }
        }
    }
}

/// How many moves a run committed: every executed step but the final one
/// of a boundary exit. The observer is notified exactly once per committed
/// move.
pub open spec fn observed_steps(t: RunTrace) -> nat {
    if t.termination == Termination::ExitedBoundary {
        (t.steps - 1) as nat
    } else {
        t.steps
    }
}

/// A run never executes more steps than its budget; a run that exhausts
/// the budget executes exactly the budget, and a boundary exit executes at
/// least its final, uncommitted step.
pub proof fn lemma_run_steps(rule: Seq<Element>, size: int, s: AntState, budget: nat)
    ensures
        run_from(rule, size, s, budget).steps <= budget,
        run_from(rule, size, s, budget).termination == Termination::BudgetExhausted ==> run_from(
            rule,
            size,
            s,
            budget,
        ).steps == budget,
        run_from(rule, size, s, budget).termination == Termination::ExitedBoundary ==> run_from(
            rule,
            size,
            s,
            budget,
        ).steps >= 1,
    decreases budget,
{
    if budget > 0 {
        let flipped = flip_cell(rule, size, s);
        let candidate = forward(s.direction, s.x, s.y);
        if within(size, candidate.0, candidate.1) {
            let arrived = flipped[cell_index(size, candidate.0, candidate.1)];
            let next = AntState {
                cells: flipped,
                x: candidate.0,
                y: candidate.1,
                direction: spec_next_direction(rule, arrived, s.direction),
            };
            lemma_run_steps(rule, size, next, (budget - 1) as nat);
        }
    }
}

/// The run is a function of the rule, the grid, the start and the budget
/// alone: equal inputs give equal traces, bit for bit, on every run.
pub proof fn lemma_run_deterministic(
    rule1: Seq<Element>,
    rule2: Seq<Element>,
    size1: int,
    size2: int,
    s1: AntState,
    s2: AntState,
    budget1: nat,
    budget2: nat,
)
    requires
        rule1 == rule2,
        size1 == size2,
        s1 == s2,
        budget1 == budget2,
    ensures
        run_from(rule1, size1, s1, budget1) == run_from(rule2, size2, s2, budget2),
{
}

/// The per-step observation hook: the engine notifies the observer once
/// after every committed move, handing it the grid and the 0-based index
/// of the step just completed. The observer receives the grid read-only
/// and cannot mutate it. Every implementation counts its notifications in
/// `observations`.
pub trait Observer {
    /// How many notifications this observer has received.
    spec fn observations(&self) -> nat;

    /// Receive one committed step. `board` is the grid after that step and
    /// `iteration` the 0-based index of the step.
    fn notify(&mut self, board: &Board, iteration: u64)
        requires
            old(self).observations() < u64::MAX,
        ensures
            final(self).observations() == old(self).observations() + 1,
    ;
}

/// An observer that only counts the steps it is shown. The bare run uses
/// it as its no-op observer.
pub struct StepCounter {
    pub count: u64,
}

impl StepCounter {
    /// A counter that has seen nothing yet.
    pub fn new() -> (r: Self)
        ensures
            r.count == 0,
    {
        StepCounter { count: 0 }
    }
}

impl Observer for StepCounter {
    open spec fn observations(&self) -> nat {
        self.count as nat
    }

    fn notify(&mut self, board: &Board, iteration: u64) {
        self.count = self.count + 1;
    }
}

impl Board {
    fn next_position(&self, direction: &Direction, coordinates: (u32, u32)) -> (r: Option<
        (u32, u32),
    >)
        requires
            self.wf(),
            within(self.extent() as int, coordinates.0 as int, coordinates.1 as int),
        ensures
            ({
                let candidate = forward(*direction, coordinates.0 as int, coordinates.1 as int);
                &&& (r is Some <==> within(self.extent() as int, candidate.0, candidate.1))
                &&& (r matches Some(p) ==> p.0 as int == candidate.0 && p.1 as int == candidate.1)
            }),
    {
        let (x, y) = coordinates;
        match *direction {
            Direction::North => if y == self.size - 1 {
                None
            } else {
                Some((x, y + 1))
            },
            Direction::South => if y == 0 {
                None
            } else {
                Some((x, y - 1))
            },
            Direction::East => if x == self.size - 1 {
                None
            } else {
                Some((x + 1, y))
            },
            Direction::West => if x == 0 {
                None
            } else {
                Some((x - 1, y))
            },
        }
    }

    /// Run the simulation from an explicit starting placement and facing
    /// direction, for at most `iterations` steps, notifying `observer`
    /// after every committed move. The grid is mutated in place; the
    /// result reports how the run ended and how many steps executed.
    /// Every stored state must lie below the rule's cardinality when the
    /// run begins — the directive lookup is defined for no other values —
    /// and the run keeps that bound.
    pub fn walk_langton_ant_from<O: Observer>(
        &mut self,
        rule: &Rule,
        iterations: u64,
        x: u32,
        y: u32,
        direction: Direction,
        observer: &mut O,
    ) -> (r: RunResult)
        requires
            old(self).wf(),
            rule.wf(),
            within(old(self).extent() as int, x as int, y as int),
            forall|i: int|
                0 <= i < old(self).cells().len() ==> (old(self).cells()[i] as int) < rule@.len(),
            old(observer).observations() + iterations <= u64::MAX,
        ensures
            ({
                let t = run_from(
                    rule@,
                    old(self).extent() as int,
                    (AntState {
                        cells: old(self).cells(),
                        x: x as int,
                        y: y as int,
                        direction: direction,
                    }),
                    iterations as nat,
                );
                &&& final(self).wf()
                &&& final(self).extent() == old(self).extent()
                &&& final(self).cells() == t.cells
                &&& r.termination == t.termination
                &&& r.steps == t.steps
                &&& final(observer).observations() == old(observer).observations()
                    + observed_steps(t)
                &&& forall|i: int|
                    0 <= i < final(self).cells().len() ==> (final(self).cells()[i] as int)
                        < rule@.len()
            }),
    {
        let ghost size = self.extent() as int;
        let ghost s0 = AntState {
            cells: self.cells(),
            x: x as int,
            y: y as int,
            direction: direction,
        };
        let ghost t = run_from(rule@, size, s0, iterations as nat);
        proof {
            lemma_run_steps(rule@, size, s0, iterations as nat);
        }
        let mut cx = x;
        let mut cy = y;
        let mut dir = direction;
        let mut i: u64 = 0;
        while i < iterations
            invariant
                self.wf(),
                rule.wf(),
                self.extent() == old(self).extent(),
                size == self.extent() as int,
                s0 == (AntState {
                    cells: old(self).cells(),
                    x: x as int,
                    y: y as int,
                    direction: direction,
                }),
                t == run_from(rule@, size, s0, iterations as nat),
                i <= iterations,
                within(size, cx as int, cy as int),
                forall|k: int| 0 <= k < self.cells().len() ==> (self.cells()[k] as int)
                    < rule@.len(),
                observer.observations() == old(observer).observations() + i,
                old(observer).observations() + iterations <= u64::MAX,
                ({
                    let rest = run_from(
                        rule@,
                        size,
                        (AntState {
                            cells: self.cells(),
                            x: cx as int,
                            y: cy as int,
                            direction: dir,
                        }),
                        (iterations - i) as nat,
                    );
                    &&& t.cells == rest.cells
                    &&& t.termination == rest.termination
                    &&& t.steps == i + rest.steps
                }),
            decreases iterations - i,
        {
            let ghost prev = AntState {
                cells: self.cells(),
                x: cx as int,
                y: cy as int,
                direction: dir,
            };
            let ghost budget_left = (iterations - i) as nat;
            let v = self.get((cx, cy));
            let nv = rule.next_value(v);
            self.set((cx, cy), nv);
            proof {
                assert(0 <= (v as int + 1) % (rule@.len() as int) < rule@.len());
                assert(nv == advanced_value(rule@, v));
                assert(self.cells() == flip_cell(rule@, size, prev));
                assert forall|k: int| 0 <= k < self.cells().len() implies (self.cells()[k] as int)
                    < rule@.len() by {
                    lemma_cell_index_in_range(size, prev.x, prev.y);
                    if k != cell_index(size, prev.x, prev.y) {
                        assert(self.cells()[k] == prev.cells[k]);
                    }
                }
            }
            match self.next_position(&dir, (cx, cy)) {
                None => {
                    proof {
                        let rest = run_from(rule@, size, prev, budget_left);
                        assert(rest.cells == self.cells());
                        assert(rest.termination == Termination::ExitedBoundary);
                        assert(rest.steps == 1);
                    }
                    return RunResult { termination: Termination::ExitedBoundary, steps: i + 1 };
                },
                Some(p) => {
                    cx = p.0;
                    cy = p.1;
                },
            }
            proof {
                lemma_cell_index_in_range(size, cx as int, cy as int);
            }
            let v2 = self.get((cx, cy));
            dir = rule.next_direction(v2, dir);
            observer.notify(self, i);
            i = i + 1;
            proof {
                let candidate = forward(prev.direction, prev.x, prev.y);
                let next = AntState {
                    cells: flip_cell(rule@, size, prev),
                    x: candidate.0,
                    y: candidate.1,
                    direction: spec_next_direction(
                        rule@,
                        flip_cell(rule@, size, prev)[cell_index(size, candidate.0, candidate.1)],
                        prev.direction,
                    ),
                };
                assert(next == (AntState {
                    cells: self.cells(),
                    x: cx as int,
                    y: cy as int,
                    direction: dir,
                }));
                let rest = run_from(rule@, size, prev, budget_left);
                let rest_next = run_from(rule@, size, next, (budget_left - 1) as nat);
                assert(rest.cells == rest_next.cells);
                assert(rest.termination == rest_next.termination);
                assert(rest.steps == rest_next.steps + 1);
            }
        }
        proof {
            let rest = run_from(
                rule@,
                size,
                (AntState { cells: self.cells(), x: cx as int, y: cy as int, direction: dir }),
                0,
            );
            assert(rest.steps == 0);
            assert(rest.termination == Termination::BudgetExhausted);
        }
        RunResult { termination: Termination::BudgetExhausted, steps: iterations }
    }

    /// Run the simulation from the canonical centered start — the cell
    /// (extent / 2, extent / 2), facing North — notifying `observer` after
    /// every committed move.
    pub fn walk_and_save_langton_ant<O: Observer>(
        &mut self,
        rule: &Rule,
        iterations: u64,
        observer: &mut O,
    ) -> (r: RunResult)
        requires
            old(self).wf(),
            rule.wf(),
            forall|i: int|
                0 <= i < old(self).cells().len() ==> (old(self).cells()[i] as int) < rule@.len(),
            old(observer).observations() + iterations <= u64::MAX,
        ensures
            ({
                let t = run_from(
                    rule@,
                    old(self).extent() as int,
                    start_state(*old(self)),
                    iterations as nat,
                );
                &&& final(self).wf()
                &&& final(self).extent() == old(self).extent()
                &&& final(self).cells() == t.cells
                &&& r.termination == t.termination
                &&& r.steps == t.steps
                &&& final(observer).observations() == old(observer).observations()
                    + observed_steps(t)
                &&& forall|i: int|
                    0 <= i < final(self).cells().len() ==> (final(self).cells()[i] as int)
                        < rule@.len()
            }),
    {
        let center = self.size / 2;
        self.walk_langton_ant_from(rule, iterations, center, center, Direction::North, observer)
    }

    /// Run the simulation from the canonical centered start with no
    /// observer. The final grid and the reported result are identical to
    /// those of `walk_and_save_langton_ant` on the same inputs: both entry
    /// points drive the same loop.
    pub fn walk_langton_ant(&mut self, rule: &Rule, iterations: u64) -> (r: RunResult)
        requires
            old(self).wf(),
            rule.wf(),
            forall|i: int|
                0 <= i < old(self).cells().len() ==> (old(self).cells()[i] as int) < rule@.len(),
        ensures
            ({
                let t = run_from(
                    rule@,
                    old(self).extent() as int,
                    start_state(*old(self)),
                    iterations as nat,
                );
                &&& final(self).wf()
                &&& final(self).extent() == old(self).extent()
                &&& final(self).cells() == t.cells
                &&& r.termination == t.termination
                &&& r.steps == t.steps
                &&& forall|i: int|
                    0 <= i < final(self).cells().len() ==> (final(self).cells()[i] as int)
                        < rule@.len()
            }),
    {
        let mut counter = StepCounter::new();
        self.walk_and_save_langton_ant(rule, iterations, &mut counter)
    }
}

/// The canonical start of a run on `b`: the agent stands on the cell
/// (extent / 2, extent / 2) — under integer division, so an even extent
/// starts just past the middle — facing North.
pub open spec fn start_state(b: Board) -> AntState {
    AntState {
        cells: b.cells(),
        x: b.extent() as int / 2,
        y: b.extent() as int / 2,
        direction: Direction::North,
    }
}

/// An observer that keeps a copy of the grid at every step whose 0-based
/// index is a multiple of `every`, for a caller that renders the kept
/// frames after the run.
pub struct FrameRecorder {
    every: u64,
    /// The kept copies, oldest first, each one flat in the grid's own slot
    /// order.
    pub frames: Vec<Vec<u8>>,
    count: u64,
}

impl FrameRecorder {
    /// The copies this recorder has kept so far.
    pub closed spec fn kept_frames(&self) -> Seq<Vec<u8>> {
        self.frames@
    }

    /// A recorder that keeps one frame out of every `every` committed
    /// steps, starting with step 0.
    pub fn new(every: u64) -> (r: Self)
        requires
            every >= 1,
        ensures
            r.kept_frames().len() == 0,
            r.observations() == 0,
    {
        FrameRecorder { every, frames: Vec::new(), count: 0 }
    }
}

impl Observer for FrameRecorder {
    closed spec fn observations(&self) -> nat {
        self.count as nat
    }

    fn notify(&mut self, board: &Board, iteration: u64) {
        if self.every >= 1 && iteration % self.every == 0 {
            let frame = board.snapshot();
            self.frames.push(frame);
        }
        self.count = self.count + 1;
    }
}

} // verus!

use vstd::prelude::*;
use rand::rngs::StdRng;
use crate::direction::Direction;
use crate::grid::{Coord, Grid2D};
use crate::over_map::{EntityId, OverMap, OverMapTile};
use crate::random::choose_direction;
use crate::terrain::{TerrainMap, TerrainType};

verus! {

/// For each animation frame of a unit, the place of its image in the atlas.
#[derive(Clone, Debug)]
pub struct UnitSprites {
    pub sprites: Vec<usize>,
}

/// What a unit is doing.
#[derive(Debug, Clone, Copy, PartialEq, Eq, Structural)]
pub enum MoveOrder {
    Idle,
    Walk,
    Swim,
}

impl MoveOrder {
    /// How far the step counter advances per tick under the order.
    pub open spec fn pace(self) -> u8 {
        match self {
            MoveOrder::Idle => 3,
            MoveOrder::Walk => 10,
            MoveOrder::Swim => 5,
        }
    }

    /// How far the step counter advances per tick under the order.
    pub fn speed(self) -> (s: u8)
        ensures
            s == self.pace(),
    {
        match self {
            MoveOrder::Idle => 3,
            MoveOrder::Walk => 10,
            MoveOrder::Swim => 5,
        }
    }
}

/// The simulation state of one unit.
#[derive(Debug, Clone, Copy, PartialEq, Eq, Structural)]
pub struct UnitPosition {
    /// The cell the unit stands on.
    pub position: Coord,
    /// Progress within the current move or idle cycle; wraps at 256.
    pub step: u8,
    /// Where the unit faces and, when it moves, where it goes.
    pub direction: Direction,
    pub order: MoveOrder,
    /// Increment of `step` per tick.
    pub speed: u8,
}

/// What the renderer needs of a unit after a tick.
#[derive(Debug, Clone, Copy, PartialEq, Eq, Structural)]
pub struct UnitFrame {
    /// Offset from the unit's cell towards the cell it moves to, in eighths of
    /// the step counter.
    pub delta_position: Coord,
    /// Number of the animation frame.
    pub index: u8,
}

/// A unit as it enters the world.
#[derive(Debug, Clone, Copy)]
pub struct UnitBundle {
    pub position: UnitPosition,
    /// Number of the frame it is first shown with.
    pub sprite_index: usize,
}

impl UnitPosition {
    /// The state of a unit that has just been placed on `position`.
    pub open spec fn fresh(position: Coord) -> UnitPosition {
        UnitPosition {
            position,
            step: 0,
            direction: Direction::Right,
            order: MoveOrder::Idle,
            speed: 3,
        }
    }

    /// Whether the step counter passes 255 on the next tick.
    pub open spec fn movement_ended(self) -> bool {
        self.step + self.speed > 255
    }

    /// Whether the unit leaves its cell on the next tick.
    pub open spec fn leaves_cell(self) -> bool {
        self.movement_ended() && self.order != MoveOrder::Idle
    }

    /// Column of the neighbouring cell in `direction`.
    pub open spec fn toward_x(self, direction: Direction) -> int {
        self.position.x + direction.step().x
    }

    /// Row of the neighbouring cell in `direction`.
    pub open spec fn toward_y(self, direction: Direction) -> int {
        self.position.y + direction.step().y
    }

    /// The state after the movement part of a tick: the unit enters the cell
    /// ahead if a move has ended, and the step counter advances in any case.
    pub open spec fn advanced(self) -> UnitPosition {
        UnitPosition {
            position: if self.leaves_cell() {
                Coord {
                    x: self.toward_x(self.direction) as i16,
                    y: self.toward_y(self.direction) as i16,
                }
            } else {
                self.position
            },
            step: ((self.step + self.speed) % 256) as u8,
            ..self
        }
    }

    /// What the renderer shows for the state.
    pub open spec fn frame(self) -> UnitFrame {
        let reach = self.step / 8;
        let slide = Coord {
            x: (self.direction.step().x * reach) as i16,
            y: (self.direction.step().y * reach) as i16,
        };
        match self.order {
            MoveOrder::Idle => UnitFrame {
                delta_position: Coord { x: 0, y: 0 },
                index: (8 * (self.step / 32)) as u8,
            },
            MoveOrder::Walk => UnitFrame {
                delta_position: slide,
                index: (8 * self.direction.ordinal() + self.step / 32) as u8,
            },
            MoveOrder::Swim => UnitFrame {
                delta_position: slide,
                index: (64 + 8 * self.direction.ordinal() + self.step / 32) as u8,
            },
        }
    }

    /// Whether the unit may move to its neighbour in `direction`: the cell is
    /// on the map, passable, and nothing stands on it.
    pub open spec fn may_enter(self, direction: Direction, terrain: &TerrainMap, over_map: &OverMap) -> bool {
        let x = self.toward_x(direction);
        let y = self.toward_y(direction);
        &&& 0 <= x < 1024
        &&& 0 <= y < 1024
        &&& terrain.passable_at(x, y)
        &&& over_map.cell(x, y) == OverMapTile::Empty
    }

    /// The directions in which the unit may move, by their numbers.
    pub open spec fn open_directions(self, terrain: &TerrainMap, over_map: &OverMap) -> Seq<Direction> {
        Direction::every().filter(|d: Direction| self.may_enter(d, terrain, over_map))
    }

    /// The state after the unit has been told where to go next, or to rest
    /// where nothing was chosen. A unit swims into water and out of water.
    pub open spec fn ordered(self, terrain: &TerrainMap, choice: Option<Direction>) -> UnitPosition {
        match choice {
            None => UnitPosition { order: MoveOrder::Idle, speed: 3, ..self },
            Some(direction) => {
                let order = if terrain.kind_at(
                    self.toward_x(direction),
                    self.toward_y(direction),
                ) == TerrainType::Water || terrain.kind_at(
                    self.position.x as int,
                    self.position.y as int,
                ) == TerrainType::Water {
                    MoveOrder::Swim
                } else {
                    MoveOrder::Walk
                };
                UnitPosition { direction, order, speed: order.pace(), ..self }
            },
        }
    }

    /// The choice that led to the state, read from a state that has just been
    /// given its order.
    pub open spec fn choice_taken(self) -> Option<Direction> {
        if self.order == MoveOrder::Idle {
            None
        } else {
            Some(self.direction)
        }
    }
}

/// `after` is `before` with the cell at column `x`, row `y` holding `tile`.
pub open spec fn with_cell(after: &OverMap, before: &OverMap, x: int, y: int, tile: OverMapTile) -> bool {
    &&& after.wf()
    &&& forall|cx: int, cy: int|
        #[trigger] after.cell(cx, cy) == if cx == x && cy == y {
            tile
        } else {
            before.cell(cx, cy)
        }
}

/// `after` holds in every cell what `before` holds.
pub open spec fn same_cells(after: &OverMap, before: &OverMap) -> bool {
    &&& after.wf()
    &&& forall|cx: int, cy: int| #[trigger] after.cell(cx, cy) == before.cell(cx, cy)
}

impl UnitBundle {
    /// Places a new unit with handle `id` on `position` if nothing stands
    /// there, and enters it in the occupancy map.
    pub fn try_spawn(position: Coord, id: EntityId, over_map: &mut OverMap) -> (r: Option<UnitBundle>)
        requires
            old(over_map).wf(),
            position.within(1024, 1024),
        ensures
            r is Some <==> old(over_map).cell(position.x as int, position.y as int)
                == OverMapTile::Empty,
            r matches Some(bundle) ==> {
                &&& bundle.position == UnitPosition::fresh(position)
                &&& bundle.sprite_index == 0
                &&& with_cell(
                    final(over_map),
                    old(over_map),
                    position.x as int,
                    position.y as int,
                    OverMapTile::Unit(id),
                )
            },
            r is None ==> same_cells(final(over_map), old(over_map)),
    {
        if over_map.get(position) != OverMapTile::Empty {
            return None;
        }
        over_map.set(position, OverMapTile::Unit(id));
        Some(
            UnitBundle {
                position: UnitPosition {
                    position,
                    step: 0,
                    direction: Direction::Right,
                    order: MoveOrder::Idle,
                    speed: 3,
                },
                sprite_index: 0,
            },
        )
    }
}

/// The directions in which `unit` may move: those whose neighbouring cell is
/// on the map, passable and empty.
pub fn valid_directions(unit: &UnitPosition, terrain: &TerrainMap, over_map: &OverMap) -> (found: Vec<
    Direction,
>)
    requires
        terrain.wf(),
        over_map.wf(),
    ensures
        found@ == unit.open_directions(terrain, over_map),
{
    let all = Direction::all();
    let mut found: Vec<Direction> = Vec::new();
    let ghost pred = |d: Direction| unit.may_enter(d, terrain, over_map);
    let mut i: usize = 0;
    proof {
        reveal(Seq::filter);
        assert(Direction::every().take(0) =~= Seq::<Direction>::empty());
    }
    while i < 8
        invariant
            i <= 8,
            all@ == Direction::every(),
            all.len() == 8,
            terrain.wf(),
            over_map.wf(),
            pred == |d: Direction| unit.may_enter(d, terrain, over_map),
            found@ == Direction::every().take(i as int).filter(pred),
        decreases 8 - i,
    {
        let direction = all[i];
        let open = match unit.position.checked_offset(direction.delta()) {
            Some(position) => TerrainMap::is_in_bounds(position) && terrain.passable(position)
                && over_map.get(position) == OverMapTile::Empty,
            None => false,
        };
        proof {
            reveal(Seq::filter);
            let longer = Direction::every().take(i + 1);
            assert(longer.drop_last() =~= Direction::every().take(i as int));
            assert(longer.last() == direction);
            assert(open == pred(direction));
        }
        if open {
            found.push(direction);
        }
        i = i + 1;
    }
    proof {
        assert(Direction::every().take(8) =~= Direction::every());
    }
    found
}

/// Gives `unit` its next order from a choice already made: it turns towards
/// `choice`, reserves the cell ahead for itself and walks or swims there, or
/// rests where nothing was chosen.
pub fn take_order(
    e: EntityId,
    unit: &mut UnitPosition,
    terrain: &TerrainMap,
    over_map: &mut OverMap,
    choice: Option<Direction>,
)
    requires
        terrain.wf(),
        old(over_map).wf(),
        old(unit).position.within(1024, 1024),
        choice matches Some(direction) ==> old(unit).may_enter(direction, terrain, old(over_map)),
    ensures
        *final(unit) == old(unit).ordered(terrain, choice),
        match choice {
            None => same_cells(final(over_map), old(over_map)),
            Some(direction) => with_cell(
                final(over_map),
                old(over_map),
                old(unit).toward_x(direction),
                old(unit).toward_y(direction),
                OverMapTile::Unit(e),
            ),
        },
{
    match choice {
        Some(direction) => {
            unit.direction = direction;
            let next_position = unit.position.offset(direction.delta());
            over_map.set(next_position, OverMapTile::Unit(e));
            unit.order = match terrain.get(next_position) {
                TerrainType::Water => MoveOrder::Swim,
                _ => match terrain.get(unit.position) {
                    TerrainType::Water => MoveOrder::Swim,
                    _ => MoveOrder::Walk,
                },
            };
        },
        None => {
            unit.order = MoveOrder::Idle;
        },
    }
    unit.speed = unit.order.speed();
}

/// Chooses at random among the directions in which `unit` may move and gives
/// it the order that follows; a unit that cannot move rests.
pub fn next_order(
    e: EntityId,
    unit: &mut UnitPosition,
    terrain: &TerrainMap,
    over_map: &mut OverMap,
    rng: &mut StdRng,
)
    requires
        terrain.wf(),
        old(over_map).wf(),
        old(unit).position.within(1024, 1024),
    ensures
        final(unit).choice_taken() is None <==> old(unit).open_directions(
            terrain,
            old(over_map),
        ).len() == 0,
        final(unit).choice_taken() matches Some(direction) ==> old(unit).may_enter(
            direction,
            terrain,
            old(over_map),
        ),
        *final(unit) == old(unit).ordered(terrain, final(unit).choice_taken()),
        match final(unit).choice_taken() {
            None => same_cells(final(over_map), old(over_map)),
            Some(direction) => with_cell(
                final(over_map),
                old(over_map),
                old(unit).toward_x(direction),
                old(unit).toward_y(direction),
                OverMapTile::Unit(e),
            ),
        },
{
    let candidates = valid_directions(unit, terrain, over_map);
    let choice = choose_direction(&candidates, rng);
    proof {
        let pred = |d: Direction| unit.may_enter(d, terrain, over_map);
        if let Some(direction) = choice {
            let i = choose|i: int| 0 <= i < candidates.len() && candidates[i] == direction;
            Direction::every().lemma_filter_pred(pred, i);
        }
    }
    take_order(e, unit, terrain, over_map, choice);
}

/// The movement part of a tick. A unit whose move has ended leaves its cell
/// empty and enters the cell ahead, which it reserved when it took the order;
/// the step counter advances by the speed and wraps at 256. Says whether the
/// step counter passed 255, that is, whether a new order is due.
pub fn advance(e: EntityId, unit: &mut UnitPosition, over_map: &mut OverMap) -> (ended: bool)
    requires
        old(over_map).wf(),
        old(unit).can_tick(e, old(over_map)),
    ensures
        ended == old(unit).movement_ended(),
        *final(unit) == old(unit).advanced(),
        final(unit).position.within(1024, 1024),
        if old(unit).leaves_cell() {
            with_cell(
                final(over_map),
                old(over_map),
                old(unit).position.x as int,
                old(unit).position.y as int,
                OverMapTile::Empty,
            )
        } else {
            same_cells(final(over_map), old(over_map))
        },
{
    let movement_ended = unit.step as u32 + unit.speed as u32 > 255;
    if movement_ended {
        match unit.order {
            MoveOrder::Idle => {},
            MoveOrder::Walk | MoveOrder::Swim => {
                over_map.set(unit.position, OverMapTile::Empty);
                let delta = unit.direction.delta();
                unit.position = unit.position.offset(delta);
            },
        }
    }
    let sum: u16 = unit.step as u16 + unit.speed as u16;
    unit.step = if sum > 255 {
        (sum - 256) as u8
    } else {
        sum as u8
    };
    movement_ended
}

/// One component of the render offset: `reach` towards `toward`.
fn slide(toward: i16, reach: i16) -> (r: i16)
    requires
        -1 <= toward <= 1,
        0 <= reach <= 31,
    ensures
        r == toward * reach,
{
    assert(toward == 1 || toward == 0 || toward == -1);
    assert(1 * reach == reach && (-1) * reach == -reach && 0 * reach == 0);
    if toward > 0 {
        reach
    } else if toward < 0 {
        -reach
    } else {
        0
    }
}

proof fn lemma_frame_bits(direction: u8, step: u8)
    requires
        direction < 8,
    ensures
        (step >> 2) & !0x7u8 == 8 * (step / 32),
        direction << 3 | step >> 5 == 8 * direction + step / 32,
        8 * direction + step / 32 < 64,
{
    assert((step >> 2) & !0x7u8 == 8 * (step / 32)) by (bit_vector);
    assert(direction << 3 | step >> 5 == 8 * direction + step / 32) by (bit_vector)
        requires
            direction < 8,
    ;
    assert(8 * direction + step / 32 < 64) by (bit_vector)
        requires
            direction < 8,
    ;
}

/// The render offset and the animation frame of `unit`.
///
/// A resting unit shows frame 0, 8, .. 56 in turn, one for every 32 steps. A
/// moving unit is drawn an eighth of its step counter towards the cell ahead
/// and shows frame `8 * direction + step / 32`; swimming frames follow the 64
/// walking frames.
pub fn frame(unit: &UnitPosition) -> (shown: UnitFrame)
    ensures
        shown == unit.frame(),
        shown.index < 128,
        unit.order == MoveOrder::Idle ==> shown.index == 8 * (unit.step / 32)
            && shown.delta_position == (Coord { x: 0, y: 0 }),
        unit.order == MoveOrder::Walk ==> shown.index == 8 * unit.direction.ordinal() + unit.step
            / 32,
        unit.order == MoveOrder::Swim ==> shown.index == 64 + 8 * unit.direction.ordinal()
            + unit.step / 32,
        unit.order != MoveOrder::Idle ==> shown.delta_position.x == unit.direction.step().x * (
        unit.step / 8) && shown.delta_position.y == unit.direction.step().y * (unit.step / 8),
{
    let dir_index: u8 = unit.direction.index();
    proof {
        lemma_frame_bits(dir_index, unit.step);
    }
    let delta = unit.direction.delta();
    let reach: i16 = (unit.step / 8) as i16;
    match unit.order {
        MoveOrder::Idle => UnitFrame {
            delta_position: Coord { x: 0, y: 0 },
            index: (unit.step >> 2) & !0x7u8,
        },
        MoveOrder::Walk => UnitFrame {
            delta_position: Coord { x: slide(delta.x, reach), y: slide(delta.y, reach) },
            index: dir_index << 3 | unit.step >> 5,
        },
        MoveOrder::Swim => UnitFrame {
            delta_position: Coord { x: slide(delta.x, reach), y: slide(delta.y, reach) },
            index: 64 + (dir_index << 3 | unit.step >> 5),
        },
    }
}

/// What a tick leaves for the renderer: where the unit stands, how it is
/// shown, and the place of its image in the atlas.
#[derive(Debug, Clone, Copy)]
pub struct UnitDisplay {
    pub position: Coord,
    pub frame: UnitFrame,
    pub sprite: usize,
}

impl UnitPosition {
    /// Whether nothing stands on cell `(x, y)` once the unit has made the
    /// movement part of its tick on `over_map`: the cell was empty, or it is the
    /// cell the unit has just left.
    pub open spec fn free_after_move(self, over_map: &OverMap, x: int, y: int) -> bool {
        ||| over_map.cell(x, y) == OverMapTile::Empty
        ||| (self.leaves_cell() && x == self.position.x && y == self.position.y)
    }

    /// Whether the unit, after the movement part of its tick on `over_map`,
    /// may move on in `direction`.
    pub open spec fn may_go_on(self, direction: Direction, terrain: &TerrainMap, over_map: &OverMap) -> bool {
        let x = self.advanced().toward_x(direction);
        let y = self.advanced().toward_y(direction);
        &&& 0 <= x < 1024
        &&& 0 <= y < 1024
        &&& terrain.passable_at(x, y)
        &&& self.free_after_move(over_map, x, y)
    }

    /// The state after a whole tick in which `choice` was chosen where an
    /// order was due.
    pub open spec fn ticked(self, terrain: &TerrainMap, choice: Option<Direction>) -> UnitPosition {
        if self.movement_ended() {
            self.advanced().ordered(terrain, choice)
        } else {
            self.advanced()
        }
    }

    /// What stands on cell `(x, y)` after a whole tick of unit `e` on
    /// `over_map` in which `choice` was chosen where an order was due: the
    /// unit on the cell it has reserved, nothing on the cell it has left, and
    /// what stood there before on every other cell.
    pub open spec fn cell_after_tick(
        self,
        e: EntityId,
        over_map: &OverMap,
        choice: Option<Direction>,
        x: int,
        y: int,
    ) -> OverMapTile {
        if self.movement_ended() && choice is Some && x == self.advanced().toward_x(choice.unwrap())
            && y == self.advanced().toward_y(choice.unwrap()) {
            OverMapTile::Unit(e)
        } else if self.leaves_cell() && x == self.position.x && y == self.position.y {
            OverMapTile::Empty
        } else {
            over_map.cell(x, y)
        }
    }

    /// The choice made in the tick that led from `self` to `after`.
    pub open spec fn choice_in_tick(self, after: UnitPosition) -> Option<Direction> {
        if self.movement_ended() {
            after.choice_taken()
        } else {
            None
        }
    }

    /// The unit stands where the occupancy map says, and has reserved the
    /// cell ahead if it is on the move.
    pub open spec fn holds_cells(self, e: EntityId, over_map: &OverMap) -> bool {
        &&& self.position.within(1024, 1024)
        &&& over_map.cell(self.position.x as int, self.position.y as int) == OverMapTile::Unit(e)
        &&& self.order != MoveOrder::Idle ==> {
            &&& 0 <= self.toward_x(self.direction) < 1024
            &&& 0 <= self.toward_y(self.direction) < 1024
            &&& over_map.cell(self.toward_x(self.direction), self.toward_y(self.direction))
                == OverMapTile::Unit(e)
        }
    }
}

impl UnitPosition {
    /// Whether the unit can make its tick on `over_map`: it stands on the map
    /// and, if its move ends, the cell ahead is on the map and reserved for it.
    pub open spec fn can_tick(self, e: EntityId, over_map: &OverMap) -> bool {
        &&& self.position.within(1024, 1024)
        &&& self.leaves_cell() ==> {
            &&& 0 <= self.toward_x(self.direction) < 1024
            &&& 0 <= self.toward_y(self.direction) < 1024
            &&& over_map.cell(self.toward_x(self.direction), self.toward_y(self.direction))
                == OverMapTile::Unit(e)
        }
    }

    /// Whether `after`, `new_map` and `display` are what a tick of unit `e`
    /// leaves of `self` and `old_map`.
    pub open spec fn ticks_to(
        self,
        after: UnitPosition,
        e: EntityId,
        terrain: &TerrainMap,
        old_map: &OverMap,
        new_map: &OverMap,
        unit_sprites: &UnitSprites,
        display: UnitDisplay,
    ) -> bool {
        let choice = self.choice_in_tick(after);
        &&& display.position == self.advanced().position
        &&& display.frame == self.advanced().frame()
        &&& display.sprite == unit_sprites.sprites[display.frame.index as int]
        &&& after == self.ticked(terrain, choice)
        &&& after.position.within(1024, 1024)
        &&& new_map.wf()
        &&& forall|x: int, y: int|
            #[trigger] new_map.cell(x, y) == self.cell_after_tick(e, old_map, choice, x, y)
        &&& choice matches Some(direction) ==> self.may_go_on(direction, terrain, old_map)
        &&& self.movement_ended() && choice is None ==> forall|direction: Direction|
            !self.may_go_on(direction, terrain, old_map)
    }
}

/// One tick of one unit: the movement, the frame to show, and, where the step
/// counter passed 255, the next order, chosen at random among the directions
/// in which the unit may go on.
pub fn move_unit(
    e: EntityId,
    unit: &mut UnitPosition,
    unit_sprites: &UnitSprites,
    terrain: &TerrainMap,
    over_map: &mut OverMap,
    rng: &mut StdRng,
) -> (display: UnitDisplay)
    requires
        terrain.wf(),
        old(over_map).wf(),
        old(unit).can_tick(e, old(over_map)),
        old(unit).advanced().frame().index < unit_sprites.sprites.len(),
    ensures
        old(unit).ticks_to(
            *final(unit),
            e,
            terrain,
            old(over_map),
            final(over_map),
            unit_sprites,
            display,
        ),
{
    let movement_ended = advance(e, unit, over_map);
    let shown = frame(unit);
    let display = UnitDisplay {
        position: unit.position,
        frame: shown,
        sprite: unit_sprites.sprites[shown.index as usize],
    };
    if movement_ended {
        let ghost moved = *unit;
        let ghost between = *over_map;
        next_order(e, unit, terrain, over_map, rng);
        proof {
            assert forall|direction: Direction|
                moved.may_enter(direction, terrain, &between) == old(unit).may_go_on(
                    direction,
                    terrain,
                    old(over_map),
                ) by {}
            if unit.choice_taken() is None {
                assert forall|direction: Direction|
                    !old(unit).may_go_on(direction, terrain, old(over_map)) by {
                    let pred = |d: Direction| moved.may_enter(d, terrain, &between);
                    if moved.may_enter(direction, terrain, &between) {
                        assert(Direction::every()[direction.ordinal() as int] == direction);
                        Direction::every().lemma_filter_contains(pred, direction.ordinal() as int);
                    }
                }
            }
        }
    }
    display
}

/// One tick of one unit where the unit and the occupancy map agree and there
/// is an image for the frame to show; nothing where they do not.
pub fn try_move_unit(
    e: EntityId,
    unit: &mut UnitPosition,
    unit_sprites: &UnitSprites,
    terrain: &TerrainMap,
    over_map: &mut OverMap,
    rng: &mut StdRng,
) -> (r: Option<UnitDisplay>)
    requires
        terrain.wf(),
        old(over_map).wf(),
    ensures
        r is Some <==> old(unit).can_tick(e, old(over_map)) && old(unit).advanced().frame().index
            < unit_sprites.sprites.len(),
        r matches Some(display) ==> old(unit).ticks_to(
            *final(unit),
            e,
            terrain,
            old(over_map),
            final(over_map),
            unit_sprites,
            display,
        ),
        r is None ==> *final(unit) == *old(unit) && same_cells(final(over_map), old(over_map)),
{
    if !TerrainMap::is_in_bounds(unit.position) {
        return None;
    }
    let mut moved = *unit;
    let sum: u16 = unit.step as u16 + unit.speed as u16;
    if sum > 255 {
        moved.step = (sum - 256) as u8;
        match unit.order {
            MoveOrder::Idle => {},
            MoveOrder::Walk | MoveOrder::Swim => {
                let target = unit.position.offset(unit.direction.delta());
                if !TerrainMap::is_in_bounds(target) || over_map.get(target) != OverMapTile::Unit(e) {
                    return None;
                }
                moved.position = target;
            },
        }
    } else {
        moved.step = sum as u8;
    }
    assert(moved == unit.advanced());
    if frame(&moved).index as usize >= unit_sprites.sprites.len() {
        return None;
    }
    Some(move_unit(e, unit, unit_sprites, terrain, over_map, rng))
}

/// A unit with its handle.
#[derive(Debug, Clone, Copy)]
pub struct Unit {
    pub id: EntityId,
    pub position: UnitPosition,
}

/// The units and the occupancy map agree: every unit stands where the map
/// says and has reserved the cell ahead if it is on the move, and no two
/// units share a handle.
pub open spec fn consistent(units: Seq<Unit>, over_map: &OverMap) -> bool {
    &&& over_map.wf()
    &&& forall|i: int| 0 <= i < units.len() ==> (#[trigger] units[i]).position.holds_cells(units[i].id, over_map)
    &&& forall|i: int, j: int|
        0 <= i < units.len() && 0 <= j < units.len() && i != j ==> (#[trigger] units[i]).id != (
        #[trigger] units[j]).id
}

/// A new unit on a free cell of a consistent world leaves the world
/// consistent, if its handle is not in use.
pub proof fn lemma_spawn_keeps_consistent(
    units: Seq<Unit>,
    before: &OverMap,
    after: &OverMap,
    id: EntityId,
    position: Coord,
)
    requires
        consistent(units, before),
        forall|i: int| 0 <= i < units.len() ==> (#[trigger] units[i]).id != id,
        position.within(1024, 1024),
        before.cell(position.x as int, position.y as int) == OverMapTile::Empty,
        with_cell(after, before, position.x as int, position.y as int, OverMapTile::Unit(id)),
    ensures
        consistent(units.push(Unit { id, position: UnitPosition::fresh(position) }), after),
{
    let grown = units.push(Unit { id, position: UnitPosition::fresh(position) });
    assert forall|i: int| 0 <= i < grown.len() implies (#[trigger] grown[i]).position.holds_cells(
        grown[i].id,
        after,
    ) by {
        if i < units.len() {
            assert(grown[i] == units[i]);
            assert(units[i].position.holds_cells(units[i].id, before));
        }
    }
    assert forall|i: int, j: int|
        0 <= i < grown.len() && 0 <= j < grown.len() && i != j implies (#[trigger] grown[i]).id != (
    #[trigger] grown[j]).id by {
        if i < units.len() {
            assert(grown[i] == units[i]);
        }
        if j < units.len() {
            assert(grown[j] == units[j]);
        }
    }
}

/// Writing over cells on which no unit stands and which no unit has
/// reserved leaves a consistent world consistent: so does a building placed
/// on a free footprint.
pub proof fn lemma_free_cells_are_nobodys(units: Seq<Unit>, before: &OverMap, after: &OverMap)
    requires
        consistent(units, before),
        after.wf(),
        forall|x: int, y: int|
            before.cell(x, y) is Unit ==> #[trigger] after.cell(x, y) == before.cell(x, y),
    ensures
        consistent(units, after),
{
    assert forall|i: int| 0 <= i < units.len() implies (#[trigger] units[i]).position.holds_cells(
        units[i].id,
        after,
    ) by {
        let unit = units[i].position;
        assert(unit.holds_cells(units[i].id, before));
        assert(after.cell(unit.position.x as int, unit.position.y as int) == before.cell(
            unit.position.x as int,
            unit.position.y as int,
        ));
        if unit.order != MoveOrder::Idle {
            assert(after.cell(unit.toward_x(unit.direction), unit.toward_y(unit.direction))
                == before.cell(unit.toward_x(unit.direction), unit.toward_y(unit.direction)));
        }
    }
}

/// A unit that holds its cells holds its cells after its tick.
proof fn lemma_tick_keeps_cells(
    e: EntityId,
    before: UnitPosition,
    after: UnitPosition,
    terrain: &TerrainMap,
    old_map: &OverMap,
    new_map: &OverMap,
)
    requires
        before.holds_cells(e, old_map),
        after == before.ticked(terrain, before.choice_in_tick(after)),
        forall|x: int, y: int|
            #[trigger] new_map.cell(x, y) == before.cell_after_tick(
                e,
                old_map,
                before.choice_in_tick(after),
                x,
                y,
            ),
        before.choice_in_tick(after) matches Some(direction) ==> before.may_go_on(
            direction,
            terrain,
            old_map,
        ),
    ensures
        after.holds_cells(e, new_map),
{
    let moved = before.advanced();
    assert(new_map.cell(moved.position.x as int, moved.position.y as int) == OverMapTile::Unit(e));
    if after.order != MoveOrder::Idle {
        assert(new_map.cell(after.toward_x(after.direction), after.toward_y(after.direction))
            == OverMapTile::Unit(e));
    }
}

/// The tick of a unit takes no cell from a unit with another handle.
proof fn lemma_tick_spares_others(
    e: EntityId,
    before: UnitPosition,
    after: UnitPosition,
    terrain: &TerrainMap,
    old_map: &OverMap,
    new_map: &OverMap,
    other_id: EntityId,
    other: UnitPosition,
)
    requires
        before.holds_cells(e, old_map),
        forall|x: int, y: int|
            #[trigger] new_map.cell(x, y) == before.cell_after_tick(
                e,
                old_map,
                before.choice_in_tick(after),
                x,
                y,
            ),
        before.choice_in_tick(after) matches Some(direction) ==> before.may_go_on(
            direction,
            terrain,
            old_map,
        ),
        other_id != e,
        other.holds_cells(other_id, old_map),
    ensures
        other.holds_cells(other_id, new_map),
{
    assert(new_map.cell(other.position.x as int, other.position.y as int) == OverMapTile::Unit(
        other_id,
    ));
    if other.order != MoveOrder::Idle {
        assert(new_map.cell(other.toward_x(other.direction), other.toward_y(other.direction))
            == OverMapTile::Unit(other_id));
    }
}

/// The tick of a unit that holds its cells changes no cell on which a
/// building stands.
proof fn lemma_tick_spares_buildings(
    e: EntityId,
    before: UnitPosition,
    after: UnitPosition,
    terrain: &TerrainMap,
    old_map: &OverMap,
    new_map: &OverMap,
    x: int,
    y: int,
)
    requires
        before.holds_cells(e, old_map),
        forall|x: int, y: int|
            #[trigger] new_map.cell(x, y) == before.cell_after_tick(
                e,
                old_map,
                before.choice_in_tick(after),
                x,
                y,
            ),
        before.choice_in_tick(after) matches Some(direction) ==> before.may_go_on(
            direction,
            terrain,
            old_map,
        ),
        old_map.cell(x, y) is Building,
    ensures
        new_map.cell(x, y) == old_map.cell(x, y),
{
}

/// One tick of the simulation: every unit in turn makes its move, is shown,
/// and takes its next order where one is due. The units are taken in the
/// order of `units`, so that no two of them reserve one cell.
pub fn move_units(
    units: &mut Vec<Unit>,
    unit_sprites: &UnitSprites,
    terrain: &TerrainMap,
    over_map: &mut OverMap,
    rng: &mut StdRng,
) -> (shown: Vec<UnitDisplay>)
    requires
        terrain.wf(),
        consistent(old(units)@, old(over_map)),
        forall|i: int|
            0 <= i < old(units).len() ==> (#[trigger] old(units)[i]).position.advanced().frame().index
                < unit_sprites.sprites.len(),
    ensures
        consistent(final(units)@, final(over_map)),
        final(units).len() == old(units).len(),
        shown.len() == old(units).len(),
        forall|x: int, y: int|
            old(over_map).cell(x, y) is Building ==> #[trigger] final(over_map).cell(x, y) == old(over_map).cell(x, y),
        forall|i: int|
            0 <= i < old(units).len() ==> {
                &&& (#[trigger] final(units)[i]).id == old(units)[i].id
                &&& final(units)[i].position == old(units)[i].position.ticked(
                    terrain,
                    old(units)[i].position.choice_in_tick(final(units)[i].position),
                )
                &&& shown[i].position == old(units)[i].position.advanced().position
                &&& shown[i].frame == old(units)[i].position.advanced().frame()
                &&& shown[i].sprite == unit_sprites.sprites[shown[i].frame.index as int]
            },
{
    let mut shown: Vec<UnitDisplay> = Vec::new();
    let count = units.len();
    let mut i: usize = 0;
    while i < count
        invariant
            i <= count,
            count == units.len() == old(units).len(),
            shown.len() == i,
            terrain.wf(),
            consistent(units@, over_map),
            forall|k: int|
                0 <= k < count ==> (#[trigger] old(units)[k]).position.advanced().frame().index
                    < unit_sprites.sprites.len(),
            forall|x: int, y: int|
                old(over_map).cell(x, y) is Building ==> #[trigger] over_map.cell(x, y) == old(over_map).cell(x, y),
            forall|k: int| i <= k < count ==> #[trigger] units[k] == old(units)[k],
            forall|k: int|
                0 <= k < i ==> {
                    &&& (#[trigger] units[k]).id == old(units)[k].id
                    &&& units[k].position == old(units)[k].position.ticked(
                        terrain,
                        old(units)[k].position.choice_in_tick(units[k].position),
                    )
                    &&& shown[k].position == old(units)[k].position.advanced().position
                    &&& shown[k].frame == old(units)[k].position.advanced().frame()
                    &&& shown[k].sprite == unit_sprites.sprites[shown[k].frame.index as int]
                },
        decreases count - i,
    {
        let mut unit = units[i];
        let ghost before = unit.position;
        let ghost old_units = units@;
        let ghost old_map = *over_map;
        assert(old_units[i as int].position.holds_cells(unit.id, &old_map));
        let display = move_unit(unit.id, &mut unit.position, unit_sprites, terrain, over_map, rng);
        units[i] = unit;
        shown.push(display);
        proof {
            assert forall|k: int| 0 <= k < units.len() implies (#[trigger] units[k]).position.holds_cells(
                units[k].id,
                over_map,
            ) by {
                if k == i {
                    lemma_tick_keeps_cells(
                        unit.id,
                        before,
                        unit.position,
                        terrain,
                        &old_map,
                        over_map,
                    );
                } else {
                    assert(units[k] == old_units[k]);
                    assert(old_units[k].position.holds_cells(old_units[k].id, &old_map));
                    lemma_tick_spares_others(
                        unit.id,
                        before,
                        unit.position,
                        terrain,
                        &old_map,
                        over_map,
                        old_units[k].id,
                        old_units[k].position,
                    );
                }
            }
            assert forall|x: int, y: int| old(over_map).cell(x, y) is Building implies #[trigger] over_map.cell(
                x,
                y,
            ) == old(over_map).cell(x, y) by {
                assert(old_map.cell(x, y) == old(over_map).cell(x, y));
                lemma_tick_spares_buildings(
                    unit.id,
                    before,
                    unit.position,
                    terrain,
                    &old_map,
                    over_map,
                    x,
                    y,
                );
            }
            assert forall|a: int, b: int|
                0 <= a < units.len() && 0 <= b < units.len() && a != b implies (
            #[trigger] units[a]).id != (#[trigger] units[b]).id by {
                assert(units[a].id == old_units[a].id);
                assert(units[b].id == old_units[b].id);
            }
        }
        i = i + 1;
    }
    shown
}

/// A unit that may not move in any direction is told to rest, at speed 3,
/// and stays on its cell through the movement part of the following tick.
pub proof fn lemma_blocked_unit_rests(unit: UnitPosition, terrain: &TerrainMap, over_map: &OverMap)
    requires
        forall|d: Direction| !unit.may_enter(d, terrain, over_map),
    ensures
        unit.open_directions(terrain, over_map).len() == 0,
        unit.ordered(terrain, None).order == MoveOrder::Idle,
        unit.ordered(terrain, None).speed == 3,
        !unit.ordered(terrain, None).leaves_cell(),
        unit.ordered(terrain, None).advanced().position == unit.position,
{
    let pred = |d: Direction| unit.may_enter(d, terrain, over_map);
    let open = Direction::every().filter(pred);
    if open.len() > 0 {
        Direction::every().lemma_filter_pred(pred, 0);
        assert(pred(open[0]));
    }
}

} // verus!

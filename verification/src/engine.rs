//! The query and mutation engine: nearest live enemy, elimination, and the
//! settling of a movement tick.
//!
//! Each operation comes twice. The first form reports why it did nothing; the
//! second has the shape that the host calls, where every refusal is a
//! sentinel or a silent return.

use crate::binary32::{
    below, equal, finite, is_below, is_finite, is_nan, is_non_positive, nan, non_positive, rank,
    HALF_MAX, MAX, ZERO,
};
use crate::enemy::{Enemy, Position};
use crate::view::{as_len, len_of, records_of, view_error, view_len, EnemyView, ViewError};
use vstd::prelude::*;

verus! {

/// Why an operation of the engine did nothing.
#[derive(Clone, Copy, Debug, PartialEq, Eq, Structural)]
pub enum EngineError {
    /// The buffer and the count give no view.
    View(ViewError),
    /// Fewer distances were handed in than records are in view.
    MissingDistances,
    /// Fewer positions were handed in than records are in view.
    MissingPositions,
    /// The speed is zero or negative.
    SpeedNotPositive,
    /// The speed is infinite or not a number.
    SpeedNotFinite,
    /// The index is negative.
    NegativeIndex,
    /// The index is past the end of the buffer.
    IndexOutOfRange,
}

/// What the host receives when no enemy was found.
pub const NOT_FOUND: i32 = -1;

// ---------------------------------------------------------------------------
// Nearest live enemy
// ---------------------------------------------------------------------------

/// The distance `a` is strictly nearer than `b`: as values `a < b`, and a
/// number is nearer than what is not a number. Of two distances that are not
/// numbers neither is nearer.
pub open spec fn nearer(a: u32, b: u32) -> bool {
    below(a, b) || (!nan(a) && nan(b))
}

/// Tells whether the distance `a` is strictly nearer than `b`.
pub fn is_nearer(a: u32, b: u32) -> (r: bool)
    ensures
        r == nearer(a, b),
{
    is_below(a, b) || (!is_nan(a) && is_nan(b))
}

/// The nearest live record among the first `n`, found by going through them
/// in order: the first live record is taken, and a later live record takes
/// its place only when it is strictly nearer. Records that are not alive are
/// passed over.
pub open spec fn nearest_among(enemies: Seq<Enemy>, dist2: Seq<u32>, n: int) -> Option<int>
    decreases n,
{
    if n <= 0 {
        None
    } else {
        let found = nearest_among(enemies, dist2, n - 1);
        if !enemies[n - 1].alive {
            found
        } else {
            match found {
                None => Some(n - 1),
                Some(k) => if nearer(dist2[n - 1], dist2[k]) {
                    Some(n - 1)
                } else {
                    Some(k)
                },
            }
        }
    }
}

/// An index that may be absent, as an integer.
pub open spec fn index_of(found: Option<usize>) -> Option<int> {
    match found {
        None => None,
        Some(i) => Some(i as int),
    }
}

/// The reason for which a search is refused, if there is one: the view is
/// judged first, then the number of distances.
pub open spec fn search_error(dist2_len: int, buffer_len: Option<int>, count: int) -> Option<
    EngineError,
> {
    match view_error(buffer_len, count) {
        Some(e) => Some(EngineError::View(e)),
        None => if dist2_len < count {
            Some(EngineError::MissingDistances)
        } else {
            None
        },
    }
}

/// What the host receives from a search: the index of the nearest live
/// record in view, or [`NOT_FOUND`] when the search is refused or no record
/// in view is alive.
pub open spec fn nearest_index(dist2: Seq<u32>, buffer: Option<Seq<Enemy>>, count: int) -> int {
    if search_error(dist2.len() as int, len_of(buffer), count) is Some {
        NOT_FOUND as int
    } else {
        match nearest_among(buffer.unwrap().take(count), dist2, count) {
            None => NOT_FOUND as int,
            Some(i) => i,
        }
    }
}

/// Finds the nearest live enemy among the first `count` records of
/// `enemies`. `dist2[i]` is the squared distance of record `i` from the
/// player. Among records at the same least distance the first one wins.
pub fn find_nearest(dist2: &[u32], enemies: Option<&[Enemy]>, count: i32) -> (r: Result<
    Option<usize>,
    EngineError,
>)
    ensures
        match search_error(dist2@.len() as int, len_of(records_of(enemies)), count as int) {
            Some(e) => r == Err::<Option<usize>, EngineError>(e),
            None => r matches Ok(found) && index_of(found) == nearest_among(
                enemies.unwrap()@.take(count as int),
                dist2@,
                count as int,
            ),
        },
{
    let view = match EnemyView::new(enemies, count) {
        Ok(v) => v,
        Err(e) => {
            return Err(EngineError::View(e));
        },
    };
    let n: usize = view.len();
    if dist2.len() < n {
        return Err(EngineError::MissingDistances);
    }
    let mut nearest: Option<usize> = None;
    let mut least: u32 = ZERO;
    let mut i: usize = 0;
    while i < n
        invariant
            i <= n,
            n == view@.len(),
            n <= dist2@.len(),
            index_of(nearest) == nearest_among(view@, dist2@, i as int),
            nearest matches Some(k) ==> k < i && least == dist2@[k as int],
        decreases n - i,
    {
        let alive = match view.get(i) {
            Some(e) => e.alive,
            None => false,
        };
        if alive {
            let nearer = match nearest {
                None => true,
                Some(_) => is_nearer(dist2[i], least),
            };
            if nearer {
                least = dist2[i];
                nearest = Some(i);
            }
        }
        i += 1;
    }
    Ok(nearest)
}

/// Finds the nearest live enemy, as the host asks for it: the index of the
/// record, or [`NOT_FOUND`] when the search is refused or no record in view
/// is alive.
pub fn find_nearest_enemy(dist2: &[u32], enemies: Option<&[Enemy]>, count: i32) -> (r: i32)
    ensures
        r == nearest_index(dist2@, records_of(enemies), count as int),
{
    match find_nearest(dist2, enemies, count) {
        Ok(Some(i)) => {
            proof {
                lemma_nearest_is_least_and_first(
                    enemies.unwrap()@.take(count as int),
                    dist2@,
                    count as int,
                );
            }
            i as i32
        },
        _ => NOT_FOUND,
    }
}

/// A search among the first `n` records finds nothing exactly when none of
/// them is alive. What it finds is one of them and alive, every live record
/// before it is strictly farther, and none after it is strictly nearer. So no
/// live record is at a smaller distance, and none before it at the same.
pub proof fn lemma_nearest_is_least_and_first(enemies: Seq<Enemy>, dist2: Seq<u32>, n: int)
    requires
        0 <= n <= enemies.len(),
    ensures
        nearest_among(enemies, dist2, n) is None <==> forall|j: int|
            0 <= j < n ==> !enemies[j].alive,
        nearest_among(enemies, dist2, n) matches Some(i) ==> {
            &&& 0 <= i < n
            &&& enemies[i].alive
            &&& forall|j: int| 0 <= j < i && enemies[j].alive ==> nearer(dist2[i], dist2[j])
            &&& forall|j: int| i <= j < n && enemies[j].alive ==> !nearer(dist2[j], dist2[i])
            &&& forall|j: int| 0 <= j < n && enemies[j].alive ==> !below(dist2[j], dist2[i])
            &&& forall|j: int| 0 <= j < i && enemies[j].alive ==> !equal(dist2[j], dist2[i])
        },
    decreases n,
{
    if n > 0 {
        lemma_nearest_is_least_and_first(enemies, dist2, n - 1);
    }
}

/// One record only is alive, strictly nearer than every live record before
/// it and not strictly farther than any after it: the search finds that one.
pub proof fn lemma_nearest_is_the_only_one(enemies: Seq<Enemy>, dist2: Seq<u32>, n: int, i: int)
    requires
        0 <= n <= enemies.len(),
        0 <= i < n,
        enemies[i].alive,
        forall|j: int| 0 <= j < i && enemies[j].alive ==> nearer(dist2[i], dist2[j]),
        forall|j: int| i <= j < n && enemies[j].alive ==> !nearer(dist2[j], dist2[i]),
    ensures
        nearest_among(enemies, dist2, n) == Some(i),
{
    lemma_nearest_is_least_and_first(enemies, dist2, n);
}

/// Where a live record is at a distance below the largest finite value, so
/// is the record that the search finds.
pub proof fn lemma_nearest_is_below_the_largest(
    enemies: Seq<Enemy>,
    dist2: Seq<u32>,
    n: int,
    j: int,
)
    requires
        0 <= n <= enemies.len(),
        0 <= j < n,
        enemies[j].alive,
        below(dist2[j], MAX),
    ensures
        nearest_among(enemies, dist2, n) matches Some(i) && below(dist2[i], MAX),
{
    lemma_nearest_is_least_and_first(enemies, dist2, n);
}

// ---------------------------------------------------------------------------
// Elimination
// ---------------------------------------------------------------------------

/// The records with record `i` no longer alive, and nothing else changed.
pub open spec fn eliminated(enemies: Seq<Enemy>, i: int) -> Seq<Enemy> {
    enemies.update(
        i,
        Enemy { id: enemies[i].id, x: enemies[i].x, y: enemies[i].y, alive: false },
    )
}

/// The reason for which an elimination is refused, if there is one. An
/// absent buffer (`None`) is reported before the index.
pub open spec fn eliminate_error(index: int, buffer_len: Option<int>) -> Option<EngineError> {
    match buffer_len {
        None => Some(EngineError::View(ViewError::NullBuffer)),
        Some(n) => if index < 0 {
            Some(EngineError::NegativeIndex)
        } else if index >= n {
            Some(EngineError::IndexOutOfRange)
        } else {
            None
        },
    }
}

/// The records after the host has asked to eliminate record `index`: a
/// refused request changes nothing.
pub open spec fn shot(enemies: Seq<Enemy>, index: int) -> Seq<Enemy> {
    if eliminate_error(index, Some(enemies.len() as int)) is None {
        eliminated(enemies, index)
    } else {
        enemies
    }
}

/// The place of the record that a request to eliminate reaches in a buffer
/// of `buffer_len` records (`None`: there is no buffer), or the reason for
/// which it reaches none.
pub fn shot_offset(index: i32, buffer_len: Option<usize>) -> (r: Result<usize, EngineError>)
    ensures
        r == match eliminate_error(index as int, as_len(buffer_len)) {
            Some(e) => Err::<usize, EngineError>(e),
            None => Ok::<usize, EngineError>(index as usize),
        },
{
    match buffer_len {
        None => Err(EngineError::View(ViewError::NullBuffer)),
        Some(n) => {
            if index < 0 {
                Err(EngineError::NegativeIndex)
            } else if index as usize >= n {
                Err(EngineError::IndexOutOfRange)
            } else {
                Ok(index as usize)
            }
        },
    }
}

/// Marks record `index` of `enemies` as no longer alive. A record that was
/// not alive stays as it is. An absent buffer is reported before the index.
pub fn eliminate(index: i32, enemies: Option<&mut Vec<Enemy>>) -> (r: Result<(), EngineError>)
    ensures
        match enemies {
            None => r == Err::<(), EngineError>(EngineError::View(ViewError::NullBuffer)),
            Some(e) => final(e)@ == shot(e@, index as int) && r == match eliminate_error(
                index as int,
                Some(e@.len() as int),
            ) {
                Some(err) => Err::<(), EngineError>(err),
                None => Ok::<(), EngineError>(()),
            },
        },
{
    match enemies {
        None => Err(EngineError::View(ViewError::NullBuffer)),
        Some(e) => match shot_offset(index, Some(e.len())) {
            Err(err) => Err(err),
            Ok(k) => {
                let ghost before = e@;
                e[k].alive = false;
                assert(e@ =~= eliminated(before, index as int));
                Ok(())
            },
        },
    }
}

/// Eliminates an enemy, as the host asks for it: a negative index, an index
/// past the end of the buffer and an absent buffer are passed over in
/// silence.
pub fn shoot_enemy(index: i32, enemies: Option<&mut Vec<Enemy>>)
    ensures
        enemies matches Some(e) ==> final(e)@ == shot(e@, index as int),
{
    let _ = eliminate(index, enemies);
}

/// An elimination changes one flag of one record, and a second one of the
/// same record changes nothing more.
pub proof fn lemma_shot_once_is_shot_twice(enemies: Seq<Enemy>, index: int)
    ensures
        shot(shot(enemies, index), index) == shot(enemies, index),
        shot(enemies, index).len() == enemies.len(),
        forall|j: int| 0 <= j < enemies.len() && j != index ==> shot(enemies, index)[j] == enemies[j],
        0 <= index < enemies.len() ==> {
            &&& !shot(enemies, index)[index].alive
            &&& shot(enemies, index)[index].id == enemies[index].id
            &&& shot(enemies, index)[index].x == enemies[index].x
            &&& shot(enemies, index)[index].y == enemies[index].y
        },
{
    assert(shot(shot(enemies, index), index) =~= shot(enemies, index));
}

// ---------------------------------------------------------------------------
// Movement
// ---------------------------------------------------------------------------

/// A movement tick can be made at this speed: the speed is a finite number
/// above zero.
pub open spec fn steppable(speed: u32) -> bool {
    finite(speed) && 0 < rank(speed)
}

/// Tells whether a movement tick can be made at this speed.
pub fn can_step(speed: u32) -> (r: bool)
    ensures
        r == steppable(speed),
{
    0 < speed && speed <= MAX
}

/// The steps from `-speed` up to `speed` span a finite width, which is twice
/// the speed: a step can be drawn on that range as it stands. At a greater
/// speed a step is drawn on a narrower range and scaled.
pub open spec fn drawable(speed: u32) -> bool {
    steppable(speed) && rank(speed) <= HALF_MAX
}

/// Tells whether a step can be drawn on the range from `-speed` up to
/// `speed` as it stands.
pub fn is_drawable(speed: u32) -> (r: bool)
    ensures
        r == drawable(speed),
{
    0 < speed && speed <= HALF_MAX
}

/// The reason for which no step is drawn, if there is one: the view is
/// judged first, then the speed.
pub open spec fn step_error(buffer_len: Option<int>, count: int, speed: u32) -> Option<
    EngineError,
> {
    match view_error(buffer_len, count) {
        Some(e) => Some(EngineError::View(e)),
        None => if non_positive(speed) {
            Some(EngineError::SpeedNotPositive)
        } else if !finite(speed) {
            Some(EngineError::SpeedNotFinite)
        } else {
            None
        },
    }
}

/// The places of the live records among the first `n`, in buffer order.
pub open spec fn live_in_view(enemies: Seq<Enemy>, n: int) -> Seq<usize>
    decreases n,
{
    if n <= 0 {
        Seq::empty()
    } else if enemies[n - 1].alive {
        live_in_view(enemies, n - 1).push((n - 1) as usize)
    } else {
        live_in_view(enemies, n - 1)
    }
}

/// Says for which records of a movement tick a step is to be drawn: for the
/// live records among the first `count`, in buffer order, at every speed that
/// is a finite number above zero.
pub fn draw_plan(enemies: Option<&[Enemy]>, count: i32, speed: u32) -> (r: Result<
    Vec<usize>,
    EngineError,
>)
    ensures
        match step_error(len_of(records_of(enemies)), count as int, speed) {
            Some(e) => r matches Err(refused) && refused == e,
            None => r matches Ok(plan) && plan@ == live_in_view(enemies.unwrap()@, count as int),
        },
{
    let records = match enemies {
        None => {
            return Err(EngineError::View(ViewError::NullBuffer));
        },
        Some(b) => b,
    };
    let n: usize = match view_len(Some(records.len()), count) {
        Ok(n) => n,
        Err(e) => {
            return Err(EngineError::View(e));
        },
    };
    if is_non_positive(speed) {
        return Err(EngineError::SpeedNotPositive);
    }
    if !is_finite(speed) {
        return Err(EngineError::SpeedNotFinite);
    }
    let mut plan: Vec<usize> = Vec::new();
    let mut i: usize = 0;
    while i < n
        invariant
            i <= n,
            n <= records@.len(),
            plan@ == live_in_view(records@, i as int),
        decreases n - i,
    {
        if records[i].alive {
            plan.push(i);
        }
        i += 1;
    }
    Ok(plan)
}

/// A step is drawn for the live records among the first `n` and for no
/// other, once for each, and in buffer order.
pub proof fn lemma_plan_is_the_living(enemies: Seq<Enemy>, n: int)
    requires
        0 <= n <= enemies.len(),
        n <= usize::MAX,
    ensures
        forall|k: int|
            0 <= k < live_in_view(enemies, n).len() ==> {
                &&& (#[trigger] live_in_view(enemies, n)[k]) < n
                &&& enemies[live_in_view(enemies, n)[k] as int].alive
            },
        forall|j: int|
            0 <= j < n && enemies[j].alive ==> live_in_view(enemies, n).contains(j as usize),
        forall|k: int, l: int|
            0 <= k < l < live_in_view(enemies, n).len() ==> live_in_view(enemies, n)[k]
                < live_in_view(enemies, n)[l],
    decreases n,
{
    if n > 0 {
        lemma_plan_is_the_living(enemies, n - 1);
        let before = live_in_view(enemies, n - 1);
        let plan = live_in_view(enemies, n);
        if enemies[n - 1].alive {
            assert(plan[before.len() as int] == (n - 1) as usize);
            assert forall|j: int| 0 <= j < n && enemies[j].alive implies plan.contains(
                j as usize,
            ) by {
                if j < n - 1 {
                    let k = choose|k: int| 0 <= k < before.len() && before[k] == j as usize;
                    assert(plan[k] == j as usize);
                }
            }
        }
    }
}

/// A record after a movement tick that proposes the position `to` for it.
/// A record that is not alive stays where it is. A live one takes the
/// proposed position, unless a coordinate of it is infinite or not a number:
/// then the record goes to the origin.
pub open spec fn settled(enemy: Enemy, to: Position) -> Enemy {
    if !enemy.alive {
        enemy
    } else if finite(to.x) && finite(to.y) {
        Enemy { id: enemy.id, x: to.x, y: to.y, alive: true }
    } else {
        Enemy { id: enemy.id, x: ZERO, y: ZERO, alive: true }
    }
}

/// The records after a movement tick over the first `count` of them.
pub open spec fn moved(enemies: Seq<Enemy>, count: int, proposed: Seq<Position>) -> Seq<Enemy> {
    Seq::new(
        enemies.len(),
        |i: int|
            if i < count {
                settled(enemies[i], proposed[i])
            } else {
                enemies[i]
            },
    )
}

/// The reason for which a movement tick is refused, if there is one: the
/// view is judged first, then the speed, then the number of positions.
pub open spec fn move_error(buffer_len: Option<int>, count: int, speed: u32, proposed_len: int)
    -> Option<EngineError> {
    match step_error(buffer_len, count, speed) {
        Some(e) => Some(e),
        None => if proposed_len < count {
            Some(EngineError::MissingPositions)
        } else {
            None
        },
    }
}

/// The records after the host has asked for a movement tick: a refused
/// request changes nothing.
pub open spec fn ticked(enemies: Seq<Enemy>, count: int, speed: u32, proposed: Seq<Position>) -> Seq<
    Enemy,
> {
    if move_error(Some(enemies.len() as int), count, speed, proposed.len() as int) is None {
        moved(enemies, count, proposed)
    } else {
        enemies
    }
}

/// Settles a movement tick over the first `count` records of `enemies`.
///
/// `speed` is the largest step of the tick, and `proposed[i]` is where the
/// caller's random step, drawn within that speed, would take record `i`.
/// Every live record in view takes its proposed position or, where that is
/// infinite or not a number, the origin. Records that are not alive are not
/// touched, and a position proposed for one is not read.
pub fn move_randomly(
    enemies: Option<&mut Vec<Enemy>>,
    count: i32,
    speed: u32,
    proposed: &[Position],
) -> (r: Result<(), EngineError>)
    ensures
        match enemies {
            None => r == Err::<(), EngineError>(EngineError::View(ViewError::NullBuffer)),
            Some(e) => final(e)@ == ticked(e@, count as int, speed, proposed@) && r == match move_error(
                Some(e@.len() as int),
                count as int,
                speed,
                proposed@.len() as int,
            ) {
                Some(err) => Err::<(), EngineError>(err),
                None => Ok::<(), EngineError>(()),
            },
        },
{
    match enemies {
        None => Err(EngineError::View(ViewError::NullBuffer)),
        Some(e) => {
            let n: usize = match view_len(Some(e.len()), count) {
                Ok(n) => n,
                Err(err) => {
                    return Err(EngineError::View(err));
                },
            };
            if is_non_positive(speed) {
                return Err(EngineError::SpeedNotPositive);
            }
            if !is_finite(speed) {
                return Err(EngineError::SpeedNotFinite);
            }
            if proposed.len() < n {
                return Err(EngineError::MissingPositions);
            }
            let ghost before = e@;
            let mut i: usize = 0;
            while i < n
                invariant
                    i <= n,
                    n <= before.len(),
                    n <= proposed@.len(),
                    e@.len() == before.len(),
                    forall|j: int| 0 <= j < i ==> e@[j] == settled(before[j], proposed@[j]),
                    forall|j: int| i <= j < before.len() ==> e@[j] == before[j],
                decreases n - i,
            {
                if e[i].alive {
                    let to = proposed[i];
                    if is_finite(to.x) && is_finite(to.y) {
                        e[i].x = to.x;
                        e[i].y = to.y;
                    } else {
                        e[i].x = ZERO;
                        e[i].y = ZERO;
                    }
                }
                i += 1;
            }
            assert(e@ =~= moved(before, count as int, proposed@));
            Ok(())
        },
    }
}

/// Settles a movement tick, as the host asks for it: every refusal is
/// passed over in silence and leaves the buffer as it was.
pub fn move_enemies_randomly(
    enemies: Option<&mut Vec<Enemy>>,
    count: i32,
    speed: u32,
    proposed: &[Position],
)
    ensures
        enemies matches Some(e) ==> final(e)@ == ticked(e@, count as int, speed, proposed@),
{
    let _ = move_randomly(enemies, count, speed, proposed);
}

/// A movement tick keeps the number of records, their ids and their flags,
/// leaves every record that is not alive as it was, and leaves every live
/// record that it moved at coordinates that are finite numbers.
pub proof fn lemma_tick_moves_only_the_living(
    enemies: Seq<Enemy>,
    count: int,
    speed: u32,
    proposed: Seq<Position>,
)
    ensures
        ticked(enemies, count, speed, proposed).len() == enemies.len(),
        forall|i: int|
            0 <= i < enemies.len() ==> {
                &&& (#[trigger] ticked(enemies, count, speed, proposed)[i]).id == enemies[i].id
                &&& ticked(enemies, count, speed, proposed)[i].alive == enemies[i].alive
                &&& !enemies[i].alive ==> ticked(enemies, count, speed, proposed)[i] == enemies[i]
            },
        move_error(Some(enemies.len() as int), count, speed, proposed.len() as int) is None
            ==> forall|i: int|
            0 <= i < count && enemies[i].alive ==> {
                &&& finite((#[trigger] ticked(enemies, count, speed, proposed)[i]).x)
                &&& finite(ticked(enemies, count, speed, proposed)[i].y)
                &&& !nan(ticked(enemies, count, speed, proposed)[i].x)
                &&& !nan(ticked(enemies, count, speed, proposed)[i].y)
            },
{
}

/// A movement tick is made at a speed exactly when the speed is neither zero
/// or negative nor infinite or not a number. Without such a speed, or without
/// a view, a movement tick changes nothing.
pub proof fn lemma_tick_refused_changes_nothing(
    enemies: Seq<Enemy>,
    count: int,
    speed: u32,
    proposed: Seq<Position>,
)
    ensures
        steppable(speed) <==> !non_positive(speed) && finite(speed),
        drawable(speed) ==> steppable(speed),
        !steppable(speed) || count <= 0 || count > enemies.len() ==> ticked(
            enemies,
            count,
            speed,
            proposed,
        ) == enemies,
{
}

/// No operation of the engine brings a record back to life.
pub proof fn lemma_dead_stays_dead(
    enemies: Seq<Enemy>,
    index: int,
    count: int,
    speed: u32,
    proposed: Seq<Position>,
    i: int,
)
    requires
        0 <= i < enemies.len(),
        !enemies[i].alive,
    ensures
        !shot(enemies, index)[i].alive,
        !ticked(enemies, count, speed, proposed)[i].alive,
{
}

} // verus!

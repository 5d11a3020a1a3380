use vstd::prelude::*;

use crate::immovable_objects::Immovable;
use crate::movable_objects::{
    bag_or_shot_crashed, crashed, overlaps, overlaps_spec, Direction, Movable, MovableType,
};

verus! {

/// Whether some actor of `s` of kind `k1` or `k2` overlaps `a`.
pub open spec fn touches(s: Seq<Movable>, a: Movable, k1: MovableType, k2: MovableType) -> bool {
    exists|j: int|
        0 <= j < s.len() && (s[j].type_object == k1 || s[j].type_object == k2) && overlaps_spec(
            a,
            #[trigger] s[j],
        )
}

/// Whether some player of `s` overlaps a monster or a falling bag.
pub open spec fn player_dies(s: Seq<Movable>) -> bool {
    exists|i: int|
        0 <= i < s.len() && (#[trigger] s[i]).type_object == MovableType::Player && touches(
            s,
            s[i],
            MovableType::Monster,
            MovableType::FallingBag,
        )
}

/// Whether the monster at index `i` is hit by a shot or a falling bag.
pub open spec fn monster_hit(s: Seq<Movable>, i: int) -> bool {
    s[i].type_object == MovableType::Monster && touches(
        s,
        s[i],
        MovableType::Shot,
        MovableType::FallingBag,
    )
}

/// Whether the debris at index `i` is picked up by a player.
pub open spec fn picked_up(s: Seq<Movable>, i: int) -> bool {
    s[i].type_object == MovableType::Crashed && touches(
        s,
        s[i],
        MovableType::Player,
        MovableType::Player,
    )
}

/// The debris that a crashed bag leaves at its place.
pub open spec fn debris(a: Movable, now: u64) -> Movable {
    Movable {
        type_object: MovableType::Crashed,
        x: a.x,
        y: a.y,
        dir: Direction::Idle,
        activation_time: now,
        previous_dir: Direction::Idle,
    }
}

/// What becomes of the actor at index `i` of `s` when no player dies: it stays, turns
/// into something else, or leaves (`None`).
pub open spec fn fate(s: Seq<Movable>, g: Seq<Vec<Immovable>>, now: u64, i: int) -> Option<Movable> {
    let a = s[i];
    match a.type_object {
        MovableType::Player => Some(a),
        MovableType::Monster => if monster_hit(s, i) {
            None
        } else {
            Some(a)
        },
        MovableType::FallingBag => if touches(s, a, MovableType::Monster, MovableType::Monster) {
            None
        } else if crashed(a, g) {
            Some(debris(a, now))
        } else {
            Some(a)
        },
        MovableType::Shot => if touches(s, a, MovableType::Monster, MovableType::Monster) || crashed(
            a,
            g,
        ) {
            None
        } else {
            Some(a)
        },
        MovableType::Crashed => if picked_up(s, i) {
            None
        } else {
            Some(a)
        },
        MovableType::Converted => None,
    }
}

pub open spec fn opt_seq(o: Option<Movable>) -> Seq<Movable> {
    match o {
        Some(a) => seq![a],
        None => Seq::empty(),
    }
}

/// The fates of the first `k` actors of `s`, in order.
pub open spec fn survivors(s: Seq<Movable>, g: Seq<Vec<Immovable>>, now: u64, k: int) -> Seq<
    Movable,
>
    decreases k,
{
    if k <= 0 {
        Seq::empty()
    } else {
        survivors(s, g, now, k - 1) + opt_seq(fate(s, g, now, k - 1))
    }
}

/// How many of the first `k` actors are debris that a player picks up.
pub open spec fn picked_count(s: Seq<Movable>, k: int) -> nat
    decreases k,
{
    if k <= 0 {
        0
    } else {
        picked_count(s, k - 1) + if picked_up(s, k - 1) {
            1nat
        } else {
            0nat
        }
    }
}

/// How many of the first `k` actors are monsters that are hit.
pub open spec fn killed_count(s: Seq<Movable>, k: int) -> nat
    decreases k,
{
    if k <= 0 {
        0
    } else {
        killed_count(s, k - 1) + if monster_hit(s, k - 1) {
            1nat
        } else {
            0nat
        }
    }
}

pub proof fn lemma_counts_bounded(s: Seq<Movable>, k: int)
    requires
        0 <= k,
    ensures
        picked_count(s, k) <= k,
        killed_count(s, k) <= k,
    decreases k,
{
    if k > 0 {
        lemma_counts_bounded(s, k - 1);
    }
}

/// Decides `touches(s@, a, k1, k2)`.
fn touches_kind(s: &Vec<Movable>, a: Movable, k1: MovableType, k2: MovableType) -> (r: bool)
    ensures
        r == touches(s@, a, k1, k2),
{
    let mut j: usize = 0;
    while j < s.len()
        invariant
            j <= s@.len(),
            forall|m: int|
                0 <= m < j ==> !((s@[m].type_object == k1 || s@[m].type_object == k2)
                    && overlaps_spec(a, #[trigger] s@[m])),
        decreases s@.len() - j,
    {
        if (s[j].type_object == k1 || s[j].type_object == k2) && overlaps(a, s[j]) {
            return true;
        }
        j += 1;
    }
    false
}

/// The outcome of collision resolution when the player survives.
pub struct Resolution {
    /// The actors for the next tick.
    pub actors: Vec<Movable>,
    /// Units of ammunition picked up.
    pub ammo_gained: usize,
    /// Monsters destroyed.
    pub monsters_killed: usize,
}

/// Resolves every interaction of one tick between the actors `input`, after motion, on
/// the grid `walls`.
///
/// Yields `None` when a player overlaps a monster or a falling bag. Otherwise each actor
/// meets its `fate`, in order: monsters hit by a shot or a falling bag leave, shots and
/// bags touched by a monster leave, crashed shots leave, crashed bags turn into debris
/// stamped `now`, and debris that a player touches is picked up as ammunition.
pub fn check_for_colision(input: &Vec<Movable>, walls: &Vec<Vec<Immovable>>, now: u64) -> (r:
    Option<Resolution>)
    ensures
        r is None <==> player_dies(input@),
        r matches Some(res) ==> {
            &&& res.actors@ == survivors(input@, walls@, now, input@.len() as int)
            &&& res.ammo_gained == picked_count(input@, input@.len() as int)
            &&& res.monsters_killed == killed_count(input@, input@.len() as int)
        },
{
    let n = input.len();
    let mut i: usize = 0;
    while i < n
        invariant
            n == input@.len(),
            i <= n,
            forall|m: int|
                0 <= m < i ==> !((#[trigger] input@[m]).type_object == MovableType::Player
                    && touches(input@, input@[m], MovableType::Monster, MovableType::FallingBag)),
        decreases n - i,
    {
        if input[i].type_object == MovableType::Player && touches_kind(
            input,
            input[i],
            MovableType::Monster,
            MovableType::FallingBag,
        ) {
            return None;
        }
        i += 1;
    }
    let mut out: Vec<Movable> = Vec::new();
    let mut ammo: usize = 0;
    let mut killed: usize = 0;
    let mut k: usize = 0;
    while k < n
        invariant
            n == input@.len(),
            k <= n,
            out@ == survivors(input@, walls@, now, k as int),
            ammo == picked_count(input@, k as int),
            killed == killed_count(input@, k as int),
        decreases n - k,
    {
        proof {
            lemma_counts_bounded(input@, k as int);
        }
        let a = input[k];
        let ghost before = out@;
        match a.type_object {
            MovableType::Player => {
                out.push(a);
            },
            MovableType::Monster => {
                if touches_kind(input, a, MovableType::Shot, MovableType::FallingBag) {
                    killed += 1;
                } else {
                    out.push(a);
                }
            },
            MovableType::FallingBag => {
                if !touches_kind(input, a, MovableType::Monster, MovableType::Monster) {
                    if bag_or_shot_crashed(a, walls) {
                        out.push(
                            Movable {
                                type_object: MovableType::Crashed,
                                x: a.x,
                                y: a.y,
                                dir: Direction::Idle,
                                activation_time: now,
                                previous_dir: Direction::Idle,
                            },
                        );
                    } else {
                        out.push(a);
                    }
                }
            },
            MovableType::Shot => {
                if !touches_kind(input, a, MovableType::Monster, MovableType::Monster)
                    && !bag_or_shot_crashed(a, walls) {
                    out.push(a);
                }
            },
            MovableType::Crashed => {
                if touches_kind(input, a, MovableType::Player, MovableType::Player) {
                    ammo += 1;
                } else {
                    out.push(a);
                }
            },
            MovableType::Converted => {},
        }
        proof {
            let f = fate(input@, walls@, now, k as int);
            assert(out@ =~= before + opt_seq(f));
        }
        k += 1;
    }
    Some(Resolution { actors: out, ammo_gained: ammo, monsters_killed: killed })
}

} // verus!

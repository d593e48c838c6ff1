//! Combat statistics and the rules of a combat's start.

use rand::Rng;
use vstd::prelude::*;

use crate::constants::TEAM_MC;

verus! {

/// Hit points: from 50 at the start of the game to 1 000 at its end;
/// `current_hp <= max_hp`.
pub struct HP {
    pub current_hp: i32,
    pub max_hp: i32,
}

/// Mana: from 0-100 at the start of the game to 10 000 at its end;
/// `current_mana <= max_mana`.
pub struct MANA {
    pub current_mana: i32,
    pub max_mana: i32,
}

/// Fixed bonus to the power of martial techniques.
pub struct Attack {
    pub attack: i32,
}

/// Fixed bonus to the power of magic techniques.
pub struct AttackSpe {
    pub attack_spe: i32,
}

/// Reduces physical damage by `defense / (defense + 100)`.
pub struct Defense {
    pub defense: i32,
}

/// Reduces magical damage by `defense_spe / (defense_spe + 100)`.
pub struct DefenseSpe {
    pub defense_spe: i32,
}

/// From 0 to 100: the more an entity has, the more likely it starts its
/// turn first.
pub struct Initiative {
    pub initiative: i32,
}

/// Chance (in percent) that a technique hits.
pub struct Accuracy {
    pub accuracy: i32,
}

/// Chance (in percent) that a hit is critical (its damage tripled).
pub struct Critical {
    pub critical: i32,
}

/// The statistics of every entity that can take part in a combat.
pub struct CombatBundle {
    pub hp: HP,
    pub mana: MANA,
    pub initiative: Initiative,
    pub attack: Attack,
    pub attack_spe: AttackSpe,
    pub defense: Defense,
    pub defense_spe: DefenseSpe,
}

/// A technique: negative values are maluses, positive ones bonuses.
pub struct Skill {
    pub hp: HP,
    pub mana: MANA,
    pub initiative: Initiative,
    pub attack: Attack,
    pub attack_spe: AttackSpe,
    pub defense: Defense,
    pub defense_spe: DefenseSpe,
    /// The skills called after this one.
    pub skills_queue: Vec<Skill>,
    pub description: String,
}

/// The karma of a character.
pub struct Karma(pub i32);

/// The team a character belongs to.
#[derive(PartialEq, Eq, Structural, Clone, Copy, Debug)]
pub struct Team(pub i32);

/// The number of foes hidden behind an aggressive character (its group's
/// leader excluded): from 0 to 5.
#[derive(PartialEq, Eq, Structural, Clone, Copy, Debug)]
pub struct GroupSize(pub i32);

impl Default for HP {
    fn default() -> (r: Self)
        ensures
            r.current_hp == 50 && r.max_hp == 50,
    {
        HP { current_hp: 50, max_hp: 50 }
    }
}

impl Default for MANA {
    fn default() -> (r: Self)
        ensures
            r.current_mana == 50 && r.max_mana == 50,
    {
        MANA { current_mana: 50, max_mana: 50 }
    }
}

impl Default for Attack {
    fn default() -> (r: Self)
        ensures
            r.attack == 10,
    {
        Attack { attack: 10 }
    }
}

impl Default for AttackSpe {
    fn default() -> (r: Self)
        ensures
            r.attack_spe == 0,
    {
        AttackSpe { attack_spe: 0 }
    }
}

impl Default for Defense {
    fn default() -> (r: Self)
        ensures
            r.defense == 10,
    {
        Defense { defense: 10 }
    }
}

impl Default for DefenseSpe {
    fn default() -> (r: Self)
        ensures
            r.defense_spe == 0,
    {
        DefenseSpe { defense_spe: 0 }
    }
}

impl Default for Initiative {
    fn default() -> (r: Self)
        ensures
            r.initiative == 20,
    {
        Initiative { initiative: 20 }
    }
}

impl Default for Accuracy {
    fn default() -> (r: Self)
        ensures
            r.accuracy == 95,
    {
        Accuracy { accuracy: 95 }
    }
}

impl Default for Critical {
    fn default() -> (r: Self)
        ensures
            r.critical == 1,
    {
        Critical { critical: 1 }
    }
}

/// The range `[low, high)` an initiative is rolled in: 20 around the
/// initiative, clamped to `[0, 100)`; an initiative of 100 always rolls 100.
pub open spec fn roll_range(init: int) -> (int, int) {
    if init - 20 <= 0 {
        (0, init + 20)
    } else if init == 100 {
        (100, 101)
    } else if init + 20 >= 100 {
        (init - 20, 100)
    } else {
        (init - 20, init + 20)
    }
}

/// The range of `init` is not empty.
pub open spec fn can_roll(init: int) -> bool {
    roll_range(init).0 < roll_range(init).1
}

/// `r` is a possible roll for `init`.
pub open spec fn valid_roll(init: int, r: int) -> bool {
    roll_range(init).0 <= r < roll_range(init).1
}

/// `a` comes before `b` in the turn order (each a roll and the initiative
/// it was rolled for): a smaller roll, or an equal roll and a higher or
/// equal initiative.
pub open spec fn turn_before(a: (i32, i32), b: (i32, i32)) -> bool {
    a.0 < b.0 || (a.0 == b.0 && a.1 >= b.1)
}

/// `s` is in turn order: rolls increase, and among equal rolls the higher
/// initiative comes first.
pub open spec fn in_turn_order(s: Seq<(i32, i32)>) -> bool {
    forall|i: int, j: int| 0 <= i < j < s.len() ==> turn_before(#[trigger] s[i], #[trigger] s[j])
}

/// Calls `rand::Rng::gen_range` on the thread's generator. Trusted: the
/// number lies in `[low, high)`; which one comes is left open. `gen_range`
/// panics on an empty range, hence `low < high`.
#[verifier::external_body]
fn random_in(low: i32, high: i32) -> (r: i32)
    requires
        low < high,
    ensures
        low <= r < high,
{
    rand::thread_rng().gen_range(low..high)
}

/// `rolls` holds, for each non-player character in order and then for
/// the player, a possible roll and the initiative it was rolled for.
pub open spec fn rolls_fit(npcs: Seq<Initiative>, player: int, rolls: Seq<(i32, i32)>) -> bool {
    &&& rolls.len() == npcs.len() + 1
    &&& forall|i: int|
        0 <= i < npcs.len() ==> (#[trigger] rolls[i]).1 == npcs[i].initiative && valid_roll(
            npcs[i].initiative as int,
            rolls[i].0 as int,
        )
    &&& rolls[npcs.len() as int].1 == player
    &&& valid_roll(player, rolls[npcs.len() as int].0 as int)
}

fn turn_before_exec(a: (i32, i32), b: (i32, i32)) -> (r: bool)
    ensures
        r == turn_before(a, b),
{
    a.0 < b.0 || (a.0 == b.0 && a.1 >= b.1)
}

/// Puts `x` at its place in the turn order `v`.
fn insert_in_turn(v: &mut Vec<(i32, i32)>, x: (i32, i32))
    requires
        in_turn_order(old(v)@),
    ensures
        in_turn_order(final(v)@),
        final(v)@.to_multiset() == old(v)@.to_multiset().insert(x),
        final(v)@.len() == old(v)@.len() + 1,
{
    let mut k: usize = 0;
    while k < v.len()
        invariant
            k <= v.len(),
            v@ == old(v)@,
            in_turn_order(v@),
            forall|i: int| 0 <= i < k ==> turn_before(#[trigger] v@[i], x),
        ensures
            k <= v.len(),
            v@ == old(v)@,
            forall|i: int| 0 <= i < k ==> turn_before(#[trigger] v@[i], x),
            k < v.len() ==> !turn_before(v@[k as int], x),
        decreases v.len() - k,
    {
        if !turn_before_exec(v[k], x) {
            break;
        }
        k = k + 1;
    }
    let ghost s = v@;
    proof {
        assert forall|i: int| k <= i < s.len() implies !turn_before(#[trigger] s[i], x) by {
            if i > k && turn_before(s[i], x) {
                assert(turn_before(s[k as int], s[i]));
            }
        }
        vstd::seq_lib::to_multiset_insert(s, k as int, x);
    }
    v.insert(k, x);
    assert(v@ == s.insert(k as int, x));
    assert forall|i: int, j: int| 0 <= i < j < v@.len() implies turn_before(
        #[trigger] v@[i],
        #[trigger] v@[j],
    ) by {
        if j < k {
            assert(v@[i] == s[i] && v@[j] == s[j]);
        } else if j == k {
            assert(v@[i] == s[i]);
        } else if i == k {
            assert(v@[j] == s[j - 1]);
            assert(!turn_before(s[j - 1], x));
        } else if i < k {
            assert(v@[i] == s[i] && v@[j] == s[j - 1]);
        } else {
            assert(v@[i] == s[i - 1] && v@[j] == s[j - 1]);
        }
    }
}

/// One initiative roll.
pub fn roll_one(init: i32) -> (r: i32)
    requires
        can_roll(init as int),
    ensures
        valid_roll(init as int, r as int),
{
    if init - 20 <= 0 {
        random_in(0, init + 20)
    } else if init == 100 {
        100
    } else if init + 20 >= 100 {
        random_in(init - 20, 100)
    } else {
        random_in(init - 20, init + 20)
    }
}

/// Rolls every non-player character's initiative, then the player's, and
/// returns each roll with the initiative it was rolled for, in turn order:
/// increasing rolls, and among equal rolls the higher initiative first.
pub fn roll_initiative(player: &Initiative, npcs: &Vec<Initiative>) -> (r: Vec<(i32, i32)>)
    requires
        can_roll(player.initiative as int),
        forall|i: int| 0 <= i < npcs.len() ==> can_roll(#[trigger] npcs@[i].initiative as int),
    ensures
        r.len() == npcs.len() + 1,
        in_turn_order(r@),
        exists|rolls: Seq<(i32, i32)>|
            #[trigger] rolls_fit(npcs@, player.initiative as int, rolls) && r@.to_multiset()
                == rolls.to_multiset(),
{
    let mut v: Vec<(i32, i32)> = Vec::new();
    let mut i: usize = 0;
    while i < npcs.len()
        invariant
            i <= npcs.len(),
            v.len() == i,
            forall|j: int| 0 <= j < npcs.len() ==> can_roll(#[trigger] npcs@[j].initiative as int),
            forall|j: int|
                0 <= j < i ==> (#[trigger] v@[j]).1 == npcs@[j].initiative && valid_roll(
                    npcs@[j].initiative as int,
                    v@[j].0 as int,
                ),
        decreases npcs.len() - i,
    {
        let n = roll_one(npcs[i].initiative);
        v.push((n, npcs[i].initiative));
        i = i + 1;
    }
    let p = roll_one(player.initiative);
    v.push((p, player.initiative));
    let ghost rolls = v@;
    assert(rolls_fit(npcs@, player.initiative as int, rolls));
    let mut r: Vec<(i32, i32)> = Vec::new();
    let mut k: usize = 0;
    assert(rolls.take(0) =~= Seq::<(i32, i32)>::empty());
    while k < v.len()
        invariant
            k <= v.len(),
            v@ == rolls,
            r@.len() == k,
            in_turn_order(r@),
            r@.to_multiset() == rolls.take(k as int).to_multiset(),
        decreases v.len() - k,
    {
        proof {
            assert(rolls.take(k + 1) =~= rolls.take(k as int).push(rolls[k as int]));
            vstd::seq_lib::to_multiset_build(rolls.take(k as int), rolls[k as int]);
        }
        insert_in_turn(&mut r, v[k]);
        k = k + 1;
    }
    assert(rolls.take(v.len() as int) =~= rolls);
    r
}

/// The foes to spawn behind a leader that starts a combat: its group size,
/// when that lies between 0 and 5.
pub fn foes_to_spawn(group_size: &GroupSize) -> (r: Option<i32>)
    ensures
        r == (if 0 <= group_size.0 <= 5 {
            Some(group_size.0)
        } else {
            None
        }),
{
    if group_size.0 < 0 || group_size.0 > 5 {
        None
    } else {
        Some(group_size.0)
    }
}

/// A character may chase again once its fair-play delay is over, or at
/// once when it is in the main character's team.
pub fn fair_play_over(timer_finished: bool, team: &Team) -> (r: bool)
    ensures
        r == (timer_finished || team.0 == TEAM_MC),
{
    timer_finished || team.0 == TEAM_MC
}

/// A detected character is chased only when it is in another team.
pub fn is_threat(npc_team: &Team, target_team: &Team) -> (r: bool)
    ensures
        r == (npc_team.0 != target_team.0),
{
    npc_team.0 != target_team.0
}


/// Every possible roll lies within 20 of the initiative and in `[0, 100]`;
/// away from the edges (`20 < init < 80`) the possible rolls are exactly
/// those from `init - 20` up to, not including, `init + 20`; in general
/// they are those of `[init - 20, init + 20)` clamped to `[0, 100)`, and an
/// initiative of 100 always rolls 100.
pub proof fn lemma_roll_within_twenty(init: int, r: int)
    requires
        0 <= init <= 100,
    ensures
        valid_roll(init, r) ==> init - 20 <= r <= init + 20 && 0 <= r <= 100,
        20 < init < 80 ==> (valid_roll(init, r) <==> init - 20 <= r < init + 20),
        valid_roll(init, r) <==> if init == 100 {
            r == 100
        } else {
            (if init - 20 > 0 {
                init - 20
            } else {
                0
            }) <= r < (if init + 20 < 100 {
                init + 20
            } else {
                100
            })
        },
        can_roll(init),
{
}
} // verus!

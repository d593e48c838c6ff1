//! Dialogs written as numbered states (the YAML form that `yml_dialog`
//! reads): each state is a monologue that leads to an exit state, or a list
//! of choices, each with its condition and exit state. Leaving a state
//! throws its events into the world.

use rand::seq::SliceRandom;
use vstd::prelude::*;

use crate::dialog::{chars_eq, str_to_string};
use crate::text::str_to_chars;

verus! {

/// Events of the world that a state can throw and a choice can ask for.
#[derive(PartialEq, Eq, Structural, Clone, Copy, Debug)]
pub enum WorldEvent {
    FrogLove,
    FrogHate,
    FrogTalk,
    SpeedrunEnd,
}

/// What a choice asks: every event of `events` already thrown, and a karma
/// within `karma_threshold`.
pub struct StateCondition {
    pub events: Vec<String>,
    pub karma_threshold: Option<(i32, i32)>,
}

/// A choice: its text, its condition and the state it leads to.
pub struct StateChoice {
    pub text: String,
    pub condition: Option<StateCondition>,
    pub exit_state: usize,
}

/// The content of a state.
pub enum StateContent {
    Choices(Vec<StateChoice>),
    Monolog { text: Vec<String>, exit_state: usize },
}

/// A state of a dialog: who speaks, what, and the events thrown on leaving.
pub struct StateNode {
    pub source: String,
    pub content: StateContent,
    pub trigger_event: Vec<String>,
}

/// A choice button: the state its choice leads to and its place in the
/// panel.
#[derive(PartialEq, Eq, Structural, Clone, Copy, Debug)]
pub struct ButtonChoice {
    pub exit_state: usize,
    pub ui_posiiton: usize,
}

/// Mathematical value of a `StateCondition`.
pub struct ConditionView {
    pub events: Seq<Seq<char>>,
    pub karma_threshold: Option<(i32, i32)>,
}

pub open spec fn names_view(v: Seq<String>) -> Seq<Seq<char>> {
    v.map_values(|s: String| s@)
}

impl View for StateCondition {
    type V = ConditionView;

    open spec fn view(&self) -> ConditionView {
        ConditionView { events: names_view(self.events@), karma_threshold: self.karma_threshold }
    }
}

/// `yml_dialog`'s rule for a condition: with no karma given, the condition
/// must have no threshold; with a karma, it must lie within the threshold
/// (if any); and every event of the condition must be active.
pub open spec fn condition_holds(c: ConditionView, karma: Option<i32>, active: Seq<Seq<char>>) -> bool {
    let karma_ok = match karma {
        None => c.karma_threshold is None,
        Some(k) => match c.karma_threshold {
            None => true,
            Some((min, max)) => min <= k && k <= max,
        },
    };
    karma_ok && forall|i: int| 0 <= i < c.events.len() ==> active.contains(#[trigger] c.events[i])
}

/// A choice is offered when it has no condition or its condition holds.
pub open spec fn choice_holds(ch: StateChoice, karma: Option<i32>, active: Seq<Seq<char>>) -> bool {
    match ch.condition {
        None => true,
        Some(c) => condition_holds(c@, karma, active),
    }
}

/// The name of a world event.
pub open spec fn world_event_name(e: WorldEvent) -> Seq<char> {
    match e {
        WorldEvent::FrogLove => "FrogLove"@,
        WorldEvent::FrogHate => "FrogHate"@,
        WorldEvent::FrogTalk => "FrogTalk"@,
        WorldEvent::SpeedrunEnd => "SpeedrunEnd"@,
    }
}

/// The world event named `s`, if there is one.
pub open spec fn world_event_named(s: Seq<char>) -> Option<WorldEvent> {
    if s == "FrogTalk"@ {
        Some(WorldEvent::FrogTalk)
    } else if s == "FrogLove"@ {
        Some(WorldEvent::FrogLove)
    } else if s == "FrogHate"@ {
        Some(WorldEvent::FrogHate)
    } else if s == "SpeedrunEnd"@ {
        Some(WorldEvent::SpeedrunEnd)
    } else {
        None
    }
}

/// The active events after the events named `names` are thrown, in order:
/// a known event that is not active yet is added at the end.
pub open spec fn thrown(active: Seq<WorldEvent>, names: Seq<Seq<char>>) -> Seq<WorldEvent>
    decreases names.len(),
{
    if names.len() == 0 {
        active
    } else {
        let before = thrown(active, names.drop_last());
        match world_event_named(names.last()) {
            Some(e) => if before.contains(e) {
                before
            } else {
                before.push(e)
            },
            None => before,
        }
    }
}

/// The names of the active events.
pub open spec fn active_names(active: Seq<WorldEvent>) -> Seq<Seq<char>> {
    active.map_values(|e: WorldEvent| world_event_name(e))
}

/// A state can be entered when it is a monologue, or when at least one of
/// its choices is offered (no karma given).
pub open spec fn state_available(n: StateNode, active: Seq<WorldEvent>) -> bool {
    match n.content {
        StateContent::Monolog { .. } => true,
        StateContent::Choices(choices) => some_offered(choices@, active),
    }
}

/// At least one of `choices` is offered (no karma given).
pub open spec fn some_offered(choices: Seq<StateChoice>, active: Seq<WorldEvent>) -> bool {
    exists|i: int|
        0 <= i < choices.len() && choice_holds(#[trigger] choices[i], None, active_names(active))
}

/// The choices offered among `choices`, in order (no karma given).
pub open spec fn offered(choices: Seq<StateChoice>, active: Seq<WorldEvent>) -> Seq<StateChoice>
    decreases choices.len(),
{
    if choices.len() == 0 {
        Seq::empty()
    } else {
        let before = offered(choices.drop_last(), active);
        if choice_holds(choices.last(), None, active_names(active)) {
            before.push(choices.last())
        } else {
            before
        }
    }
}

/// Calls `yml_dialog::Condition::is_verified` on the condition built from
/// `c`. Trusted: the answer is `condition_holds`, the rule that the
/// crate's source follows.
#[verifier::external_body]
fn yml_condition_is_verified(c: &StateCondition, karma: Option<i32>, active: &Vec<String>) -> (b:
    bool)
    ensures
        b == condition_holds(c@, karma, names_view(active@)),
{
    yml_dialog::Condition::new(c.karma_threshold, c.events.clone()).is_verified(
        karma,
        active.clone(),
    )
}

/// Calls `yml_dialog::Choice::is_verified` on the choice built from `ch`.
/// Trusted: the answer is `choice_holds`, the rule that the crate's source
/// follows.
#[verifier::external_body]
fn yml_choice_is_verified(ch: &StateChoice, karma: Option<i32>, active: &Vec<String>) -> (b: bool)
    ensures
        b == choice_holds(*ch, karma, names_view(active@)),
{
    let condition = match &ch.condition {
        Some(c) => Some(yml_dialog::Condition::new(c.karma_threshold, c.events.clone())),
        None => None,
    };
    yml_dialog::Choice::new(ch.text.clone(), condition, ch.exit_state).is_verified(
        karma,
        active.clone(),
    )
}

/// Calls `rand::seq::SliceRandom::choose` on the thread's generator.
/// Trusted: `None` exactly when `v` is empty, else one of the values of `v`;
/// which one is left open.
#[verifier::external_body]
fn choose_random(v: &Vec<usize>) -> (r: Option<usize>)
    ensures
        r is None <==> v@.len() == 0,
        r matches Some(x) ==> v@.contains(x),
{
    v.choose(&mut rand::thread_rng()).copied()
}

fn name_is(s: &Vec<char>, name: &str) -> (r: bool)
    ensures
        r == (s@ == name@),
{
    let n = str_to_chars(name);
    chars_eq(s, &n)
}

impl WorldEvent {
    /// The event's name, as `Display` writes it.
    pub fn to_string(&self) -> (r: String)
        ensures
            r@ == world_event_name(*self),
    {
        match self {
            WorldEvent::FrogLove => str_to_string("FrogLove"),
            WorldEvent::FrogHate => str_to_string("FrogHate"),
            WorldEvent::FrogTalk => str_to_string("FrogTalk"),
            WorldEvent::SpeedrunEnd => str_to_string("SpeedrunEnd"),
        }
    }

    /// The event named by the characters `s`, if there is one.
    pub fn from_name(s: &Vec<char>) -> (r: Option<WorldEvent>)
        ensures
            r == world_event_named(s@),
    {
        if name_is(s, "FrogTalk") {
            Some(WorldEvent::FrogTalk)
        } else if name_is(s, "FrogLove") {
            Some(WorldEvent::FrogLove)
        } else if name_is(s, "FrogHate") {
            Some(WorldEvent::FrogHate)
        } else if name_is(s, "SpeedrunEnd") {
            Some(WorldEvent::SpeedrunEnd)
        } else {
            None
        }
    }
}

impl std::str::FromStr for WorldEvent {
    type Err = ();

    fn from_str(input: &str) -> (r: Result<WorldEvent, ()>)
        ensures
            r == (match world_event_named(input@) {
                Some(e) => Ok(e),
                None => Err(()),
            }),
    {
        match WorldEvent::from_name(&str_to_chars(input)) {
            Some(e) => Ok(e),
            None => Err(()),
        }
    }
}

/// Reading back the name of a world event gives the same event.
pub proof fn lemma_world_event_name_round_trip(e: WorldEvent)
    ensures
        world_event_named(world_event_name(e)) == Some(e),
{
    reveal_strlit("FrogTalk");
    reveal_strlit("FrogLove");
    reveal_strlit("FrogHate");
    reveal_strlit("SpeedrunEnd");
    assert("FrogTalk"@[4] == 'T');
    assert("FrogLove"@[4] == 'L');
    assert("FrogHate"@[4] == 'H');
    assert("SpeedrunEnd"@[0] == 'S');
    assert("FrogTalk"@[0] == 'F');
}

impl ButtonChoice {
    /// The button at place `ui_posiiton`, leading to state 0 until a choice
    /// is put on it.
    pub fn new(ui_posiiton: usize) -> (r: ButtonChoice)
        ensures
            r == (ButtonChoice { exit_state: 0, ui_posiiton }),
    {
        ButtonChoice { exit_state: 0, ui_posiiton }
    }
}

/// `true` when `e` is active.
pub fn is_active(active: &Vec<WorldEvent>, e: WorldEvent) -> (r: bool)
    ensures
        r == active@.contains(e),
{
    let mut i: usize = 0;
    while i < active.len()
        invariant
            i <= active.len(),
            forall|j: int| 0 <= j < i ==> active@[j] != e,
        decreases active.len() - i,
    {
        if active[i] == e {
            return true;
        }
        i = i + 1;
    }
    false
}

/// Throws the events named `incoming` (see `thrown`).
pub fn throw_events(active: &mut Vec<WorldEvent>, incoming: &Vec<String>)
    ensures
        final(active)@ == thrown(old(active)@, names_view(incoming@)),
{
    let ghost names = names_view(incoming@);
    let mut i: usize = 0;
    assert(names.take(0) =~= Seq::<Seq<char>>::empty());
    while i < incoming.len()
        invariant
            i <= incoming.len(),
            names == names_view(incoming@),
            active@ == thrown(old(active)@, names.take(i as int)),
        decreases incoming.len() - i,
    {
        assert(names.take(i + 1).drop_last() =~= names.take(i as int));
        let chars = str_to_chars(incoming[i].as_str());
        match WorldEvent::from_name(&chars) {
            Some(e) => {
                if !is_active(active, e) {
                    active.push(e);
                }
            },
            None => {},
        }
        i = i + 1;
    }
    assert(names.take(incoming.len() as int) =~= names);
}

/// The names of the active events, in order.
pub fn active_event_names(active: &Vec<WorldEvent>) -> (r: Vec<String>)
    ensures
        names_view(r@) == active_names(active@),
{
    let mut r: Vec<String> = Vec::new();
    let mut i: usize = 0;
    while i < active.len()
        invariant
            i <= active.len(),
            r@.len() == i,
            forall|j: int| 0 <= j < i ==> #[trigger] r@[j]@ == world_event_name(active@[j]),
        decreases active.len() - i,
    {
        r.push(active[i].to_string());
        i = i + 1;
    }
    assert(names_view(r@) =~= active_names(active@));
    r
}

/// `true` until the speedrun's end has been thrown.
pub fn speedrun_still_on(active: &Vec<WorldEvent>) -> (r: bool)
    ensures
        r == !active@.contains(WorldEvent::SpeedrunEnd),
{
    !is_active(active, WorldEvent::SpeedrunEnd)
}

/// Whether the dialog may move to `node`: a monologue always, a list of
/// choices when one of them is offered.
pub fn state_is_available(node: &StateNode, active: &Vec<WorldEvent>) -> (r: bool)
    ensures
        r == state_available(*node, active@),
{
    match &node.content {
        StateContent::Monolog { .. } => true,
        StateContent::Choices(choices) => {
            let names = active_event_names(active);
            let mut i: usize = 0;
            while i < choices.len()
                invariant
                    i <= choices.len(),
                    node.content == StateContent::Choices(*choices),
                    names_view(names@) == active_names(active@),
                    forall|j: int|
                        0 <= j < i ==> !choice_holds(
                            #[trigger] choices@[j],
                            None,
                            active_names(active@),
                        ),
                decreases choices.len() - i,
            {
                if yml_choice_is_verified(&choices[i], None, &names) {
                    assert(choice_holds(choices@[i as int], None, active_names(active@)));
                    assert(some_offered(choices@, active@));
                    return true;
                }
                i = i + 1;
            }
            false
        },
    }
}

/// The choices offered to the player, as (exit state, text), in order.
pub fn offered_choices(choices: &Vec<StateChoice>, active: &Vec<WorldEvent>) -> (r: Vec<
    (usize, String),
>)
    ensures
        r@.len() == offered(choices@, active@).len(),
        forall|i: int|
            0 <= i < r@.len() ==> #[trigger] r@[i].0 == offered(choices@, active@)[i].exit_state
                && r@[i].1@ == offered(choices@, active@)[i].text@,
{
    let names = active_event_names(active);
    let mut r: Vec<(usize, String)> = Vec::new();
    let mut i: usize = 0;
    assert(choices@.take(0) =~= Seq::<StateChoice>::empty());
    while i < choices.len()
        invariant
            i <= choices.len(),
            names_view(names@) == active_names(active@),
            r@.len() == offered(choices@.take(i as int), active@).len(),
            forall|k: int|
                0 <= k < r@.len() ==> #[trigger] r@[k].0 == offered(
                    choices@.take(i as int),
                    active@,
                )[k].exit_state && r@[k].1@ == offered(choices@.take(i as int), active@)[k].text@,
        decreases choices.len() - i,
    {
        assert(choices@.take(i + 1).drop_last() =~= choices@.take(i as int));
        assert(choices@.take(i + 1).last() == choices@[i as int]);
        if yml_choice_is_verified(&choices[i], None, &names) {
            r.push((choices[i].exit_state, choices[i].text.clone()));
        }
        i = i + 1;
    }
    assert(choices@.take(choices.len() as int) =~= choices@);
    r
}

/// The exit states a non-player character may pick among its choices: those
/// whose condition is absent or holds (no karma given), in order.
pub fn possible_exits(choices: &Vec<StateChoice>, active: &Vec<WorldEvent>) -> (r: Vec<usize>)
    ensures
        r@ == offered(choices@, active@).map_values(|c: StateChoice| c.exit_state),
{
    let names = active_event_names(active);
    let mut r: Vec<usize> = Vec::new();
    let mut i: usize = 0;
    assert(choices@.take(0) =~= Seq::<StateChoice>::empty());
    while i < choices.len()
        invariant
            i <= choices.len(),
            names_view(names@) == active_names(active@),
            r@ == offered(choices@.take(i as int), active@).map_values(
                |c: StateChoice| c.exit_state,
            ),
        decreases choices.len() - i,
    {
        assert(choices@.take(i + 1).drop_last() =~= choices@.take(i as int));
        assert(choices@.take(i + 1).last() == choices@[i as int]);
        let keep = match &choices[i].condition {
            None => true,
            Some(c) => yml_condition_is_verified(c, None, &names),
        };
        if keep {
            r.push(choices[i].exit_state);
        }
        i = i + 1;
        assert(r@ =~= offered(choices@.take(i as int), active@).map_values(
            |c: StateChoice| c.exit_state,
        ));
    }
    assert(choices@.take(choices.len() as int) =~= choices@);
    r
}

/// The state a non-player character moves to: one of its possible exits,
/// picked at random; `None` when it has none.
pub fn npc_next_state(choices: &Vec<StateChoice>, active: &Vec<WorldEvent>) -> (r: Option<usize>)
    ensures
        r is None <==> offered(choices@, active@).len() == 0,
        r matches Some(x) ==> offered(choices@, active@).map_values(
            |c: StateChoice| c.exit_state,
        ).contains(x),
{
    let exits = possible_exits(choices, active);
    choose_random(&exits)
}

/// A key press during a monologue: the first text is dropped while several
/// remain; on the last one, a monologue state gives the state to go to.
pub fn continue_monolog(texts: &mut Vec<String>, current: Option<&StateNode>) -> (r: Option<usize>)
    ensures
        old(texts)@.len() > 1 ==> final(texts)@ == old(texts)@.drop_first() && r is None,
        old(texts)@.len() <= 1 ==> final(texts)@ == old(texts)@ && r == match current {
            Some(n) => match n.content {
                StateContent::Monolog { exit_state, .. } => Some(exit_state),
                StateContent::Choices(_) => None,
            },
            None => None,
        },
{
    if texts.len() > 1 {
        texts.remove(0);
        assert(old(texts)@.remove(0) =~= old(texts)@.drop_first());
        return None;
    }
    match current {
        Some(n) => match &n.content {
            StateContent::Monolog { exit_state, .. } => Some(*exit_state),
            StateContent::Choices(_) => None,
        },
        None => None,
    }
}


/// Which states may be entered: a monologue always; a state of choices
/// exactly when at least one of its choices is offered (its condition,
/// with no karma given, holds for the active events).
pub proof fn lemma_state_entry(n: StateNode, active: Seq<WorldEvent>)
    ensures
        n.content is Monolog ==> state_available(n, active),
        forall|cs: Vec<StateChoice>|
            n.content == StateContent::Choices(cs) ==> (state_available(n, active) <==> exists|i: int|
                0 <= i < cs@.len() && choice_holds(
                    #[trigger] cs@[i],
                    None,
                    active_names(active),
                )),
{
}
} // verus!

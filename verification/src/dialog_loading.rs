//! Dialogs of numbered states read from their YAML form, as the game
//! loads them for each character: the states, and the state a dialog
//! starts in.

use std::collections::BTreeMap;

use vstd::prelude::*;
use yml_dialog::{Content, DialogNode as YmlNode};

use crate::dialog_states::{
    names_view, state_available, state_is_available, throw_events, thrown, ConditionView,
    StateChoice, StateCondition, StateContent, StateNode, WorldEvent,
};

verus! {

/// Mathematical value of a `StateChoice`.
pub struct StateChoiceView {
    pub text: Seq<char>,
    pub condition: Option<ConditionView>,
    pub exit_state: usize,
}

/// Mathematical value of a `StateContent`.
pub enum StateContentView {
    Choices(Seq<StateChoiceView>),
    Monolog { text: Seq<Seq<char>>, exit_state: usize },
}

/// Mathematical value of a `StateNode`.
pub struct StateNodeView {
    pub source: Seq<char>,
    pub content: StateContentView,
    pub trigger_event: Seq<Seq<char>>,
}

/// The value of a choice.
pub open spec fn choice_view(c: StateChoice) -> StateChoiceView {
    StateChoiceView {
        text: c.text@,
        condition: match c.condition {
            Some(d) => Some(d@),
            None => None,
        },
        exit_state: c.exit_state,
    }
}

/// The value of the content of a state.
pub open spec fn content_view(c: StateContent) -> StateContentView {
    match c {
        StateContent::Choices(v) => StateContentView::Choices(
            v@.map_values(|c: StateChoice| choice_view(c)),
        ),
        StateContent::Monolog { text, exit_state } => StateContentView::Monolog {
            text: names_view(text@),
            exit_state,
        },
    }
}

/// The value of a state.
pub open spec fn state_view(n: StateNode) -> StateNodeView {
    StateNodeView {
        source: n.source@,
        content: content_view(n.content),
        trigger_event: names_view(n.trigger_event@),
    }
}

/// The numbered states, each taken by its value.
pub open spec fn states_view(v: Seq<(usize, StateNode)>) -> Seq<(usize, StateNodeView)> {
    v.map_values(|e: (usize, StateNode)| (e.0, state_view(e.1)))
}

/// The state numbers increase along `v`.
pub open spec fn numbers_increase(v: Seq<(usize, StateNode)>) -> bool {
    forall|i: int, j: int| 0 <= i < j < v.len() ==> (#[trigger] v[i]).0 < (#[trigger] v[j]).0
}

/// The map that the YAML text of a dialog is read into.
type YmlStates = BTreeMap<usize, YmlNode>;

/// The numbered states that `serde_yaml` reads from the YAML text `text`
/// as a map from state numbers to `yml_dialog::DialogNode`s, in increasing
/// order of their numbers; `None` when the text is no such map.
pub uninterp spec fn yaml_dialog_states(text: Seq<char>) -> Option<Seq<(usize, StateNodeView)>>;

/// Calls `serde_yaml::from_str` to read `text` as a `BTreeMap` from state
/// numbers to `yml_dialog::DialogNode`s, and hands each entry over as a
/// `StateNode`, field by field, through the node's getters. Trusted: the
/// result, taken by its value, is `yaml_dialog_states` applied to `text`,
/// and its numbers increase (the order in which a `BTreeMap` is walked).
/// The YAML grammar itself is not stated.
#[verifier::external_body]
fn parse_dialog_states(text: &str) -> (r: Option<Vec<(usize, StateNode)>>)
    ensures
        match r {
            Some(v) => yaml_dialog_states(text@) == Some(states_view(v@)) && numbers_increase(v@),
            None => yaml_dialog_states(text@) is None,
        },
{
    serde_yaml::from_str::<YmlStates>(text).ok().map(|map| map.into_iter().map(|(k, n)| (k, StateNode {
        source: n.source().clone(),
        trigger_event: n.trigger_event().clone(),
        content: match n.content().clone() {
            Content::Monolog { text, exit_state } => StateContent::Monolog { text, exit_state },
            Content::Choices(cs) => StateContent::Choices(cs.iter().map(|c| StateChoice {
                text: c.text().clone(),
                condition: c.condition().as_ref().map(|d| StateCondition { events: d.events().clone(), karma_threshold: *d.karma_threshold() }),
                exit_state: *c.exit_state(),
            }).collect()),
        },
    })).collect())
}

/// The state a dialog starts in: the number of its first state, with the
/// states; `None` when it has none.
pub fn dialog_start(states: Vec<(usize, StateNode)>) -> (r: Option<(usize, Vec<(usize, StateNode)>)>)
    ensures
        match r {
            None => states@.len() == 0,
            Some((first, v)) => states@.len() > 0 && first == states@[0].0 && v@ == states@,
        },
{
    if states.len() == 0 {
        None
    } else {
        let first = states[0].0;
        Some((first, states))
    }
}

/// Reads a dialog written in YAML (numbered states, as `yml_dialog`
/// describes them) and the state it starts in: the smallest state number.
/// `None` when the text is not such a map or holds no state.
pub fn load_dialog(text: &str) -> (r: Option<(usize, Vec<(usize, StateNode)>)>)
    ensures
        match yaml_dialog_states(text@) {
            None => r is None,
            Some(s) => if s.len() == 0 {
                r is None
            } else {
                &&& r matches Some((first, v))
                &&& states_view(v@) == s
                &&& first == s[0].0
                &&& forall|i: int| 0 <= i < s.len() ==> first <= #[trigger] s[i].0
            },
        },
{
    match parse_dialog_states(text) {
        None => None,
        Some(v) => {
            let r = dialog_start(v);
            proof {
                assert forall|i: int| 0 <= i < v@.len() implies v@[0].0 <= #[trigger] states_view(
                    v@,
                )[i].0 by {
                    if i > 0 {
                        assert(v@[0].0 < v@[i].0);
                    }
                }
            }
            r
        },
    }
}

/// The place in `states` of the first state numbered `n`, if there is one.
pub open spec fn state_place(states: Seq<(usize, StateNode)>, n: usize) -> Option<int>
    decreases states.len(),
{
    if states.len() == 0 {
        None
    } else {
        match state_place(states.drop_last(), n) {
            Some(i) => Some(i),
            None => if states.last().0 == n {
                Some(states.len() - 1)
            } else {
                None
            },
        }
    }
}

proof fn lemma_state_place_none(states: Seq<(usize, StateNode)>, n: usize)
    requires
        forall|i: int| 0 <= i < states.len() ==> (#[trigger] states[i]).0 != n,
    ensures
        state_place(states, n) is None,
    decreases states.len(),
{
    if states.len() > 0 {
        lemma_state_place_none(states.drop_last(), n);
        assert(states[states.len() - 1].0 != n);
    }
}

proof fn lemma_state_place_found(states: Seq<(usize, StateNode)>, n: usize, k: int)
    requires
        0 <= k < states.len(),
        states[k].0 == n,
        forall|i: int| 0 <= i < k ==> (#[trigger] states[i]).0 != n,
    ensures
        state_place(states, n) == Some(k),
    decreases states.len(),
{
    if k < states.len() - 1 {
        lemma_state_place_found(states.drop_last(), n, k);
    } else {
        lemma_state_place_none(states.drop_last(), n);
    }
}

/// The dialog moves to the state numbered `new_state` when it has one and
/// that state may be entered (a monologue, or a state where at least one
/// choice is offered); then `current` becomes `new_state` and the events
/// of that state are thrown into `active`. Otherwise nothing changes.
/// Returns whether the dialog moved.
pub fn change_state(
    states: &Vec<(usize, StateNode)>,
    current: &mut usize,
    new_state: usize,
    active: &mut Vec<WorldEvent>,
) -> (r: bool)
    ensures
        match state_place(states@, new_state) {
            Some(i) => if state_available(states@[i].1, old(active)@) {
                &&& r
                &&& *final(current) == new_state
                &&& final(active)@ == thrown(
                    old(active)@,
                    names_view(states@[i].1.trigger_event@),
                )
            } else {
                &&& !r
                &&& *final(current) == *old(current)
                &&& final(active)@ == old(active)@
            },
            None => {
                &&& !r
                &&& *final(current) == *old(current)
                &&& final(active)@ == old(active)@
            },
        },
{
    let mut k: usize = 0;
    while k < states.len()
        invariant
            k <= states.len(),
            *current == *old(current),
            active@ == old(active)@,
            forall|i: int| 0 <= i < k ==> (#[trigger] states@[i]).0 != new_state,
        decreases states.len() - k,
    {
        if states[k].0 == new_state {
            proof {
                lemma_state_place_found(states@, new_state, k as int);
            }
            let node = &states[k].1;
            if state_is_available(node, active) {
                *current = new_state;
                throw_events(active, &node.trigger_event);
                return true;
            } else {
                return false;
            }
        }
        k = k + 1;
    }
    proof {
        lemma_state_place_none(states@, new_state);
    }
    false
}

} // verus!

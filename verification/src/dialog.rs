//! The dialog tree: nodes made of texts or choices, said by a character,
//! with the events a node throws when it is left.
//!
//! A node owns its children, in order: by choosing the n-th choice of a
//! node, the dialog goes on with its n-th child.

use vstd::prelude::*;

use crate::text::{str_to_chars};

verus! {

/// Points to the current dialog of a character, written in the file
/// format of `DialogNode::print_file`.
#[derive(PartialEq, Clone, Debug)]
pub struct Dialog {
    pub current_node: Option<String>,
}

/// What the player's karma and the past events must be for a choice to be
/// offered.
///
/// A karma threshold `(min, max)` asks `min <= karma <= max`.
#[derive(PartialEq, Clone, Debug)]
pub struct DialogCondition {
    pub karma_threshold: Option<(i32, i32)>,
    pub event: Option<Vec<GameEvent>>,
}

/// One element of a node: a line of text, or a choice with its condition.
#[derive(PartialEq, Clone, Debug)]
pub enum DialogType {
    Text(String),
    Choice { text: String, condition: Option<DialogCondition> },
}

/// Events of the game that a choice may ask for.
#[derive(PartialEq, Eq, Structural, Clone, Copy, Debug)]
pub enum GameEvent {
    BeatTheGame,
    FirstKill,
    AreaCleared,
    HasCharisma,
    HasFriend,
}

/// Events that a node throws when the dialog leaves it.
#[derive(PartialEq, Eq, Structural, Clone, Copy, Debug)]
pub enum ThrowableEvent {
    FightEvent,
    HasFriend,
}

/// The events thrown on leaving a node.
pub struct TriggerEvent(pub Vec<ThrowableEvent>);

/// Points to the first node of a dialog.
#[derive(PartialEq, Debug)]
pub struct DialogTree {
    pub current: Option<DialogNode>,
}

/// A node of a dialog tree.
#[derive(PartialEq, Debug)]
pub struct DialogNode {
    /// A series of texts (a monologue) or a series of choices.
    pub dialog_type: Vec<DialogType>,
    /// The character who speaks: an id and a name.
    pub character: Option<(u32, String)>,
    /// What may follow this node, in order.
    pub children: Vec<DialogNode>,
    /// Thrown when the dialog leaves this node.
    pub trigger_event: Vec<ThrowableEvent>,
}

/// Mathematical value of a `DialogCondition`.
pub struct ConditionModel {
    pub karma_threshold: Option<(i32, i32)>,
    pub event: Option<Seq<GameEvent>>,
}

/// Mathematical value of a `DialogType`.
pub enum DialogTypeModel {
    Text(Seq<char>),
    Choice { text: Seq<char>, condition: Option<ConditionModel> },
}

/// Mathematical value of a `DialogNode`.
pub struct NodeModel {
    pub dialog_type: Seq<DialogTypeModel>,
    pub character: Option<(u32, Seq<char>)>,
    pub children: Seq<NodeModel>,
    pub trigger_event: Seq<ThrowableEvent>,
}

impl View for DialogCondition {
    type V = ConditionModel;

    open spec fn view(&self) -> ConditionModel {
        ConditionModel {
            karma_threshold: self.karma_threshold,
            event: match self.event {
                Some(v) => Some(v@),
                None => None,
            },
        }
    }
}

impl View for DialogType {
    type V = DialogTypeModel;

    open spec fn view(&self) -> DialogTypeModel {
        match self {
            DialogType::Text(t) => DialogTypeModel::Text(t@),
            DialogType::Choice { text, condition } => DialogTypeModel::Choice {
                text: text@,
                condition: match condition {
                    Some(c) => Some(c@),
                    None => None,
                },
            },
        }
    }
}

/// The node with no element, no character, no child and no event.
pub open spec fn empty_node() -> NodeModel {
    NodeModel {
        dialog_type: Seq::empty(),
        character: None,
        children: Seq::empty(),
        trigger_event: Seq::empty(),
    }
}

pub open spec fn character_model(c: Option<(u32, String)>) -> Option<(u32, Seq<char>)> {
    match c {
        Some((id, name)) => Some((id, name@)),
        None => None,
    }
}

pub open spec fn types_model(v: Seq<DialogType>) -> Seq<DialogTypeModel> {
    v.map_values(|d: DialogType| d@)
}

/// Mathematical value of a node and, recursively, of its children.
pub open spec fn node_model(n: DialogNode) -> NodeModel
    decreases n,
{
    NodeModel {
        dialog_type: types_model(n.dialog_type@),
        character: character_model(n.character),
        children: Seq::new(
            n.children.len() as nat,
            |i: int|
                if 0 <= i < n.children.len() {
                    node_model(n.children[i])
                } else {
                    empty_node()
                },
        ),
        trigger_event: n.trigger_event@,
    }
}

impl View for DialogNode {
    type V = NodeModel;

    open spec fn view(&self) -> NodeModel {
        node_model(*self)
    }
}

/// The name of a game event, as it is written in a dialog file.
pub open spec fn game_event_name(e: GameEvent) -> Seq<char> {
    match e {
        GameEvent::BeatTheGame => "BeatTheGame"@,
        GameEvent::FirstKill => "FirstKill"@,
        GameEvent::AreaCleared => "AreaCleared"@,
        GameEvent::HasCharisma => "HasCharisma"@,
        GameEvent::HasFriend => "HasFriend"@,
    }
}

/// The game event named `s`, if there is one.
pub open spec fn game_event_named(s: Seq<char>) -> Option<GameEvent> {
    if s == "BeatTheGame"@ {
        Some(GameEvent::BeatTheGame)
    } else if s == "FirstKill"@ {
        Some(GameEvent::FirstKill)
    } else if s == "AreaCleared"@ {
        Some(GameEvent::AreaCleared)
    } else if s == "HasCharisma"@ {
        Some(GameEvent::HasCharisma)
    } else if s == "HasFriend"@ {
        Some(GameEvent::HasFriend)
    } else {
        None
    }
}

/// The name of a throwable event, as it is written in a dialog file.
pub open spec fn throwable_event_name(e: ThrowableEvent) -> Seq<char> {
    match e {
        ThrowableEvent::FightEvent => "FightEvent"@,
        ThrowableEvent::HasFriend => "HasFriend"@,
    }
}

/// The throwable event named `s`, if there is one.
pub open spec fn throwable_event_named(s: Seq<char>) -> Option<ThrowableEvent> {
    if s == "FightEvent"@ {
        Some(ThrowableEvent::FightEvent)
    } else if s == "HasFriend"@ {
        Some(ThrowableEvent::HasFriend)
    } else {
        None
    }
}

/// `true` when the two character sequences are equal.
pub fn chars_eq(a: &Vec<char>, b: &Vec<char>) -> (r: bool)
    ensures
        r == (a@ == b@),
{
    if a.len() != b.len() {
        return false;
    }
    let mut i: usize = 0;
    while i < a.len()
        invariant
            i <= a.len() == b.len(),
            forall|j: int| 0 <= j < i ==> a@[j] == b@[j],
        decreases a.len() - i,
    {
        if a[i] != b[i] {
            return false;
        }
        i = i + 1;
    }
    assert(a@ =~= b@);
    true
}

/// A `String` holding the characters of a literal.
pub fn str_to_string(s: &str) -> (r: String)
    ensures
        r@ == s@,
{
    broadcast use vstd::string::group_string_axioms;

    s.to_string()
}

fn names_match(s: &Vec<char>, name: &str) -> (r: bool)
    ensures
        r == (s@ == name@),
{
    let n = str_to_chars(name);
    chars_eq(s, &n)
}

impl GameEvent {
    /// The event's name, as `Display` writes it.
    pub fn to_string(&self) -> (r: String)
        ensures
            r@ == game_event_name(*self),
    {
        match self {
            GameEvent::BeatTheGame => str_to_string("BeatTheGame"),
            GameEvent::FirstKill => str_to_string("FirstKill"),
            GameEvent::AreaCleared => str_to_string("AreaCleared"),
            GameEvent::HasCharisma => str_to_string("HasCharisma"),
            GameEvent::HasFriend => str_to_string("HasFriend"),
        }
    }

    /// The event named by the characters `s`, if there is one.
    pub fn from_name(s: &Vec<char>) -> (r: Option<GameEvent>)
        ensures
            r == game_event_named(s@),
    {
        if names_match(s, "BeatTheGame") {
            Some(GameEvent::BeatTheGame)
        } else if names_match(s, "FirstKill") {
            Some(GameEvent::FirstKill)
        } else if names_match(s, "AreaCleared") {
            Some(GameEvent::AreaCleared)
        } else if names_match(s, "HasCharisma") {
            Some(GameEvent::HasCharisma)
        } else if names_match(s, "HasFriend") {
            Some(GameEvent::HasFriend)
        } else {
            None
        }
    }
}

impl std::str::FromStr for GameEvent {
    type Err = ();

    fn from_str(input: &str) -> (r: Result<GameEvent, ()>)
        ensures
            r == (match game_event_named(input@) {
                Some(e) => Ok(e),
                None => Err(()),
            }),
    {
        match GameEvent::from_name(&str_to_chars(input)) {
            Some(e) => Ok(e),
            None => Err(()),
        }
    }
}

impl ThrowableEvent {
    /// The event's name, as `Display` writes it.
    pub fn to_string(&self) -> (r: String)
        ensures
            r@ == throwable_event_name(*self),
    {
        match self {
            ThrowableEvent::FightEvent => str_to_string("FightEvent"),
            ThrowableEvent::HasFriend => str_to_string("HasFriend"),
        }
    }

    /// The event named by the characters `s`, if there is one.
    pub fn from_name(s: &Vec<char>) -> (r: Option<ThrowableEvent>)
        ensures
            r == throwable_event_named(s@),
    {
        if names_match(s, "FightEvent") {
            Some(ThrowableEvent::FightEvent)
        } else if names_match(s, "HasFriend") {
            Some(ThrowableEvent::HasFriend)
        } else {
            None
        }
    }
}

impl std::str::FromStr for ThrowableEvent {
    type Err = ();

    fn from_str(input: &str) -> (r: Result<ThrowableEvent, ()>)
        ensures
            r == (match throwable_event_named(input@) {
                Some(e) => Ok(e),
                None => Err(()),
            }),
    {
        match ThrowableEvent::from_name(&str_to_chars(input)) {
            Some(e) => Ok(e),
            None => Err(()),
        }
    }
}

/// `true` when `karma` meets the karma threshold of a condition: always
/// when it has none or when the threshold is `(0, 0)` (no threshold).
pub open spec fn karma_verified(c: ConditionModel, karma: int) -> bool {
    match c.karma_threshold {
        Some((min, max)) => (min == 0 && max == 0) || (min <= karma && karma <= max),
        None => true,
    }
}

impl DialogCondition {
    /// The condition that asks nothing.
    pub fn new() -> (r: DialogCondition)
        ensures
            r@ == (ConditionModel { karma_threshold: None, event: None }),
    {
        DialogCondition { karma_threshold: None, event: None }
    }

    /// `true` when `karma` lies within the karma threshold, or when there is
    /// no threshold (`None`, or `(0, 0)`). Events are not checked.
    pub fn is_verified(&self, karma: i32) -> (b: bool)
        ensures
            b == karma_verified(self@, karma as int),
    {
        match self.karma_threshold {
            Some(karma_threshold) => {
                if karma_threshold.0 == 0 && karma_threshold.1 == 0 {
                    return true;
                }
                if karma >= karma_threshold.0 && karma <= karma_threshold.1 {
                    return true;
                }
            },
            None => return true,
        }
        false
    }
}

impl DialogTypeModel {
    pub open spec fn is_choice(self) -> bool {
        self is Choice
    }

    pub open spec fn is_text(self) -> bool {
        self is Text
    }
}

impl DialogType {
    /// An empty text.
    pub fn new_text() -> (r: DialogType)
        ensures
            r@ == DialogTypeModel::Text(Seq::empty()),
    {
        DialogType::Text(String::new())
    }

    /// An empty choice without condition.
    pub fn new_choice() -> (r: DialogType)
        ensures
            r@ == (DialogTypeModel::Choice { text: Seq::empty(), condition: None }),
    {
        DialogType::Choice { text: String::new(), condition: None }
    }

    /// Compares the kinds only (text or choice), not the contents.
    pub fn _eq(&self, comp: DialogType) -> (b: bool)
        ensures
            b == (self@.is_choice() == comp@.is_choice()),
    {
        match (self, comp) {
            (DialogType::Text(_), DialogType::Text(_)) => true,
            (DialogType::Choice { .. }, DialogType::Choice { .. }) => true,
            _ => false,
        }
    }

    pub fn is_choice(&self) -> (b: bool)
        ensures
            b == self@.is_choice(),
    {
        match self {
            DialogType::Choice { .. } => true,
            DialogType::Text(_) => false,
        }
    }

    pub fn is_text(&self) -> (b: bool)
        ensures
            b == self@.is_text(),
    {
        match self {
            DialogType::Text(_) => true,
            _ => false,
        }
    }
}

/// Reading back the name that `to_string` writes gives the same game event.
pub proof fn lemma_game_event_name_round_trip(e: GameEvent)
    ensures
        game_event_named(game_event_name(e)) == Some(e),
{
    reveal_strlit("BeatTheGame");
    reveal_strlit("FirstKill");
    reveal_strlit("AreaCleared");
    reveal_strlit("HasCharisma");
    reveal_strlit("HasFriend");
    assert("BeatTheGame"@[0] == 'B');
    assert("FirstKill"@[0] == 'F');
    assert("AreaCleared"@[0] == 'A');
    assert("HasCharisma"@[0] == 'H');
    assert("HasFriend"@[0] == 'H');
    assert("HasCharisma"@[3] == 'C');
    assert("HasFriend"@[3] == 'F');
    assert("HasCharisma"@.len() == 11);
    assert("HasFriend"@.len() == 9);
}

/// Reading back the name that `to_string` writes gives the same throwable
/// event.
pub proof fn lemma_throwable_event_name_round_trip(e: ThrowableEvent)
    ensures
        throwable_event_named(throwable_event_name(e)) == Some(e),
{
    reveal_strlit("FightEvent");
    reveal_strlit("HasFriend");
    assert("FightEvent"@[0] == 'F');
    assert("HasFriend"@[0] == 'H');
}

/// A node is never both a choice and a text.
pub proof fn lemma_choice_excludes_text(n: DialogNode)
    ensures
        !((n@.dialog_type.len() > 0 && n@.dialog_type[0].is_choice()) && (n@.dialog_type.len()
            > 0 && n@.dialog_type[0].is_text())),
{
}

/// The model of the `i`-th child is the `i`-th child of the model.
pub proof fn lemma_child_model(n: DialogNode, i: int)
    requires
        0 <= i < n.children.len(),
    ensures
        n@.children[i] == n.children@[i]@,
        n@.children.len() == n.children.len(),
{
}

impl DialogNode {
    /// A node with no element, no character, no child and no event.
    pub fn new() -> (r: DialogNode)
        ensures
            r@ == empty_node(),
    {
        let r = DialogNode {
            dialog_type: Vec::new(),
            character: None,
            children: Vec::new(),
            trigger_event: Vec::new(),
        };
        assert(r@.dialog_type =~= Seq::<DialogTypeModel>::empty());
        assert(r@.children =~= Seq::<NodeModel>::empty());
        r
    }

    /// `true` when the node has no child.
    pub fn is_end_node(&self) -> (b: bool)
        ensures
            b == (self@.children.len() == 0),
    {
        self.children.len() == 0
    }

    /// `true` when the first element of the node is a choice.
    pub fn is_choice(&self) -> (b: bool)
        ensures
            b == (self@.dialog_type.len() > 0 && self@.dialog_type[0].is_choice()),
    {
        if self.dialog_type.len() > 0 {
            return self.dialog_type[0].is_choice();
        }
        false
    }

    /// `true` when the first element of the node is a text.
    pub fn is_text(&self) -> (b: bool)
        ensures
            b == (self@.dialog_type.len() > 0 && self@.dialog_type[0].is_text()),
    {
        if self.dialog_type.len() > 0 {
            return self.dialog_type[0].is_text();
        }
        false
    }

    /// Appends `new_node` to the children.
    pub fn add_child(&mut self, new_node: DialogNode)
        ensures
            final(self)@ == (NodeModel { children: old(self)@.children.push(new_node@), ..old(self)@ }),
    {
        self.children.push(new_node);
        assert(self@.children =~= old(self)@.children.push(new_node@));
    }
}


/// What a karma threshold accepts: with no threshold, or with the pair
/// `(0, 0)` (which stands for no threshold), every karma; with any other
/// pair `(min, max)`, exactly the karmas from `min` to `max`.
pub proof fn lemma_karma_threshold_bounds(c: ConditionModel, karma: int)
    ensures
        c.karma_threshold is None ==> karma_verified(c, karma),
        c.karma_threshold == Some((0i32, 0i32)) ==> karma_verified(c, karma),
        forall|min: i32, max: i32|
            c.karma_threshold == Some((min, max)) && !(min == 0 && max == 0) ==> (karma_verified(
                c,
                karma,
            ) <==> (min <= karma && karma <= max)),
{
}
} // verus!

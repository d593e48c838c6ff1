//! The tree under construction while a dialog is read: nodes in a vector,
//! each knowing the index of its parent and of its children.
//!
//! A node is always added after its parent, so a child's index is greater
//! than its parent's. Node 0 is the root. A node created without a parent
//! is kept in the vector but is not reachable from the root.

use vstd::prelude::*;

use crate::dialog::{
    character_model, empty_node, types_model, DialogCondition, DialogNode, DialogType,
    DialogTypeModel, GameEvent, NodeModel, ThrowableEvent,
};

verus! {

/// Mathematical value of an arena entry.
pub struct ArenaNode {
    pub dialog_type: Seq<DialogTypeModel>,
    pub character: Option<(u32, Seq<char>)>,
    pub children: Seq<int>,
    pub trigger_event: Seq<ThrowableEvent>,
    pub parent: Option<int>,
}

/// A node of the arena.
pub struct ArenaEntry {
    pub dialog_type: Vec<DialogType>,
    pub character: Option<(u32, String)>,
    pub children: Vec<usize>,
    pub trigger_event: Vec<ThrowableEvent>,
    pub parent: Option<usize>,
}

impl View for ArenaEntry {
    type V = ArenaNode;

    open spec fn view(&self) -> ArenaNode {
        ArenaNode {
            dialog_type: types_model(self.dialog_type@),
            character: character_model(self.character),
            children: self.children@.map_values(|c: usize| c as int),
            trigger_event: self.trigger_event@,
            parent: match self.parent {
                Some(p) => Some(p as int),
                None => None,
            },
        }
    }
}

pub open spec fn arena_view(a: Seq<ArenaEntry>) -> Seq<ArenaNode> {
    a.map_values(|e: ArenaEntry| e@)
}

/// A node with nothing in it yet.
pub open spec fn blank(parent: Option<int>) -> ArenaNode {
    ArenaNode {
        dialog_type: Seq::empty(),
        character: None,
        children: Seq::empty(),
        trigger_event: Seq::empty(),
        parent,
    }
}

/// Children come after their parent and lie within the arena; so do
/// parents before their children.
pub open spec fn arena_wf(a: Seq<ArenaNode>) -> bool {
    &&& forall|i: int, k: int|
        0 <= i < a.len() && 0 <= k < a[i].children.len() ==> i < #[trigger] a[i].children[k]
            < a.len()
    &&& forall|i: int|
        0 <= i < a.len() ==> match #[trigger] a[i].parent {
            Some(p) => 0 <= p < i,
            None => true,
        }
}

/// Adds a new last child to node `cur`; the new node is at index `a.len()`.
pub open spec fn with_child(a: Seq<ArenaNode>, cur: int) -> Seq<ArenaNode> {
    a.update(cur, ArenaNode { children: a[cur].children.push(a.len() as int), ..a[cur] }).push(
        blank(Some(cur)),
    )
}

/// Adds a new node beside `cur`: a last child of `cur`'s parent, or a node
/// without parent when `cur` has none. The new node is at index `a.len()`.
pub open spec fn with_sibling(a: Seq<ArenaNode>, cur: int) -> Seq<ArenaNode> {
    match a[cur].parent {
        Some(p) => with_child(a, p),
        None => a.push(blank(None)),
    }
}

/// Appends an element to node `cur`.
pub open spec fn with_element(a: Seq<ArenaNode>, cur: int, d: DialogTypeModel) -> Seq<ArenaNode> {
    a.update(cur, ArenaNode { dialog_type: a[cur].dialog_type.push(d), ..a[cur] })
}

/// Sets the speaker of node `cur`.
pub open spec fn with_character(a: Seq<ArenaNode>, cur: int, name: Seq<char>) -> Seq<
    ArenaNode,
> {
    a.update(cur, ArenaNode { character: Some((0u32, name)), ..a[cur] })
}

/// Appends an event to those that node `cur` throws.
pub open spec fn with_trigger(a: Seq<ArenaNode>, cur: int, e: ThrowableEvent) -> Seq<ArenaNode> {
    a.update(cur, ArenaNode { trigger_event: a[cur].trigger_event.push(e), ..a[cur] })
}

/// The node reached from `cur` by going `n` times to the parent; `None`
/// when a node on the way has no parent.
pub open spec fn climb(a: Seq<ArenaNode>, cur: int, n: int) -> Option<int>
    decreases n,
{
    if n <= 0 {
        Some(cur)
    } else {
        match a[cur].parent {
            Some(p) => climb(a, p, n - 1),
            None => None,
        }
    }
}

/// The tree rooted at node `i`.
pub open spec fn to_tree(a: Seq<ArenaNode>, i: int) -> NodeModel
    decreases a.len() - i,
{
    if 0 <= i < a.len() {
        NodeModel {
            dialog_type: a[i].dialog_type,
            character: a[i].character,
            children: Seq::new(
                a[i].children.len(),
                |k: int|
                    if 0 <= k < a[i].children.len() && i < a[i].children[k] < a.len() {
                        to_tree(a, a[i].children[k])
                    } else {
                        empty_node()
                    },
            ),
            trigger_event: a[i].trigger_event,
        }
    } else {
        empty_node()
    }
}

pub proof fn lemma_climb_in_range(a: Seq<ArenaNode>, cur: int, n: int)
    requires
        arena_wf(a),
        0 <= cur < a.len(),
    ensures
        climb(a, cur, n) matches Some(p) ==> 0 <= p <= cur,
    decreases n,
{
    if n > 0 {
        match a[cur].parent {
            Some(p) => {
                lemma_climb_in_range(a, p, n - 1);
            },
            None => {},
        }
    }
}

/// The arena holding only a root.
pub fn new_arena() -> (a: Vec<ArenaEntry>)
    ensures
        arena_view(a@) == seq![blank(None)],
        arena_wf(arena_view(a@)),
{
    let mut a: Vec<ArenaEntry> = Vec::new();
    a.push(blank_entry(None));
    assert(arena_view(a@) =~= seq![blank(None)]);
    a
}

fn blank_entry(parent: Option<usize>) -> (e: ArenaEntry)
    ensures
        e@ == blank(
            match parent {
                Some(p) => Some(p as int),
                None => None,
            },
        ),
{
    let e = ArenaEntry {
        dialog_type: Vec::new(),
        character: None,
        children: Vec::new(),
        trigger_event: Vec::new(),
        parent,
    };
    assert(e@.dialog_type =~= Seq::<DialogTypeModel>::empty());
    assert(e@.children =~= Seq::<int>::empty());
    e
}

/// Adds a new last child to node `cur` and returns its index.
pub fn add_child(a: &mut Vec<ArenaEntry>, cur: usize) -> (idx: usize)
    requires
        cur < old(a).len() < usize::MAX,
        arena_wf(arena_view(old(a)@)),
    ensures
        arena_view(final(a)@) == with_child(arena_view(old(a)@), cur as int),
        arena_wf(arena_view(final(a)@)),
        idx == old(a).len(),
        final(a).len() == old(a).len() + 1,
{
    let idx = a.len();
    let ghost v0 = arena_view(a@);
    {
        let e = &mut a[cur];
        e.children.push(idx);
    }
    a.push(blank_entry(Some(cur)));
    let ghost v1 = arena_view(a@);
    assert(v1[cur as int].children =~= v0[cur as int].children.push(idx as int));
    assert(v1 =~= with_child(v0, cur as int));
    assert(arena_wf(v1)) by {
        assert forall|i: int, k: int|
            0 <= i < v1.len() && 0 <= k < v1[i].children.len() implies i
            < #[trigger] v1[i].children[k] < v1.len() by {
            if i != cur && i < v0.len() {
                assert(v1[i] == v0[i]);
            }
        }
        assert forall|i: int| 0 <= i < v1.len() implies match #[trigger] v1[i].parent {
            Some(p) => 0 <= p < i,
            None => true,
        } by {
            if i < v0.len() {
                assert(v1[i].parent == v0[i].parent);
            }
        }
    }
    idx
}

/// Adds a new node beside `cur` (see `with_sibling`) and returns its index.
pub fn add_sibling(a: &mut Vec<ArenaEntry>, cur: usize) -> (idx: usize)
    requires
        cur < old(a).len() < usize::MAX,
        arena_wf(arena_view(old(a)@)),
    ensures
        arena_view(final(a)@) == with_sibling(arena_view(old(a)@), cur as int),
        arena_wf(arena_view(final(a)@)),
        idx == old(a).len(),
        final(a).len() == old(a).len() + 1,
{
    let ghost v0 = arena_view(a@);
    assert(v0[cur as int] == a@[cur as int]@);
    match a[cur].parent {
        Some(p) => {
            assert(v0[cur as int].parent == Some(p as int));
            assert(0 <= p < cur);
            add_child(a, p)
        },
        None => {
            let idx = a.len();
            a.push(blank_entry(None));
            assert(arena_view(a@) =~= v0.push(blank(None)));
            idx
        },
    }
}

/// The parent of node `cur`.
pub fn parent_of(a: &Vec<ArenaEntry>, cur: usize) -> (p: Option<usize>)
    requires
        cur < a.len(),
        arena_wf(arena_view(a@)),
    ensures
        match p {
            Some(p) => arena_view(a@)[cur as int].parent == Some(p as int) && p < cur,
            None => arena_view(a@)[cur as int].parent is None,
        },
{
    assert(arena_view(a@)[cur as int] == a@[cur as int]@);
    a[cur].parent
}

/// Appends an element to node `cur`.
pub fn add_element(a: &mut Vec<ArenaEntry>, cur: usize, d: DialogType)
    requires
        cur < old(a).len(),
        arena_wf(arena_view(old(a)@)),
    ensures
        arena_view(final(a)@) == with_element(arena_view(old(a)@), cur as int, d@),
        arena_wf(arena_view(final(a)@)),
        final(a).len() == old(a).len(),
{
    let ghost v0 = arena_view(a@);
    let ghost dv = d@;
    {
        let e = &mut a[cur];
        e.dialog_type.push(d);
    }
    let ghost v1 = arena_view(a@);
    assert(v1[cur as int].dialog_type =~= v0[cur as int].dialog_type.push(dv));
    assert(v1 =~= with_element(v0, cur as int, dv));
    assert(arena_wf(v1)) by {
        assert forall|i: int, k: int|
            0 <= i < v1.len() && 0 <= k < v1[i].children.len() implies i
            < #[trigger] v1[i].children[k] < v1.len() by {
            assert(v1[i].children == v0[i].children);
        }
        assert forall|i: int| 0 <= i < v1.len() implies match #[trigger] v1[i].parent {
            Some(p) => 0 <= p < i,
            None => true,
        } by {
            assert(v1[i].parent == v0[i].parent);
        }
    }
}

/// Sets the speaker of node `cur`.
pub fn set_character(a: &mut Vec<ArenaEntry>, cur: usize, name: String)
    requires
        cur < old(a).len(),
        arena_wf(arena_view(old(a)@)),
    ensures
        arena_view(final(a)@) == with_character(arena_view(old(a)@), cur as int, name@),
        arena_wf(arena_view(final(a)@)),
        final(a).len() == old(a).len(),
{
    let ghost v0 = arena_view(a@);
    let ghost nv = name@;
    {
        let e = &mut a[cur];
        e.character = Some((0, name));
    }
    let ghost v1 = arena_view(a@);
    assert(v1 =~= with_character(v0, cur as int, nv));
    assert(arena_wf(v1)) by {
        assert forall|i: int, k: int|
            0 <= i < v1.len() && 0 <= k < v1[i].children.len() implies i
            < #[trigger] v1[i].children[k] < v1.len() by {
            assert(v1[i].children == v0[i].children);
        }
        assert forall|i: int| 0 <= i < v1.len() implies match #[trigger] v1[i].parent {
            Some(p) => 0 <= p < i,
            None => true,
        } by {
            assert(v1[i].parent == v0[i].parent);
        }
    }
}

/// Appends an event to those that node `cur` throws.
pub fn add_trigger(a: &mut Vec<ArenaEntry>, cur: usize, ev: ThrowableEvent)
    requires
        cur < old(a).len(),
        arena_wf(arena_view(old(a)@)),
    ensures
        arena_view(final(a)@) == with_trigger(arena_view(old(a)@), cur as int, ev),
        arena_wf(arena_view(final(a)@)),
        final(a).len() == old(a).len(),
{
    let ghost v0 = arena_view(a@);
    {
        let e = &mut a[cur];
        e.trigger_event.push(ev);
    }
    let ghost v1 = arena_view(a@);
    assert(v1[cur as int].trigger_event =~= v0[cur as int].trigger_event.push(ev));
    assert(v1 =~= with_trigger(v0, cur as int, ev));
    assert(arena_wf(v1)) by {
        assert forall|i: int, k: int|
            0 <= i < v1.len() && 0 <= k < v1[i].children.len() implies i
            < #[trigger] v1[i].children[k] < v1.len() by {
            assert(v1[i].children == v0[i].children);
        }
        assert forall|i: int| 0 <= i < v1.len() implies match #[trigger] v1[i].parent {
            Some(p) => 0 <= p < i,
            None => true,
        } by {
            assert(v1[i].parent == v0[i].parent);
        }
    }
}

fn copy_events(v: &Vec<GameEvent>) -> (r: Vec<GameEvent>)
    ensures
        r@ == v@,
{
    let mut r: Vec<GameEvent> = Vec::new();
    let mut i: usize = 0;
    while i < v.len()
        invariant
            i <= v.len(),
            r@ == v@.take(i as int),
        decreases v.len() - i,
    {
        r.push(v[i]);
        i = i + 1;
        assert(v@.take(i as int) =~= v@.take(i - 1).push(v@[i - 1]));
    }
    assert(v@.take(v.len() as int) =~= v@);
    r
}

fn copy_condition(c: &Option<DialogCondition>) -> (r: Option<DialogCondition>)
    ensures
        match (r, *c) {
            (Some(x), Some(y)) => x@ == y@,
            (None, None) => true,
            _ => false,
        },
{
    match c {
        Some(dc) => {
            let event = match &dc.event {
                Some(v) => Some(copy_events(v)),
                None => None,
            };
            Some(DialogCondition { karma_threshold: dc.karma_threshold, event })
        },
        None => None,
    }
}

fn copy_element(d: &DialogType) -> (r: DialogType)
    ensures
        r@ == d@,
{
    match d {
        DialogType::Text(t) => DialogType::Text(t.clone()),
        DialogType::Choice { text, condition } => DialogType::Choice {
            text: text.clone(),
            condition: copy_condition(condition),
        },
    }
}

fn copy_elements(v: &Vec<DialogType>) -> (r: Vec<DialogType>)
    ensures
        types_model(r@) == types_model(v@),
{
    let mut r: Vec<DialogType> = Vec::new();
    let mut i: usize = 0;
    while i < v.len()
        invariant
            i <= v.len(),
            r@.len() == i,
            forall|j: int| 0 <= j < i ==> #[trigger] r@[j]@ == v@[j]@,
        decreases v.len() - i,
    {
        r.push(copy_element(&v[i]));
        i = i + 1;
    }
    assert(types_model(r@) =~= types_model(v@));
    r
}

fn copy_triggers(v: &Vec<ThrowableEvent>) -> (r: Vec<ThrowableEvent>)
    ensures
        r@ == v@,
{
    let mut r: Vec<ThrowableEvent> = Vec::new();
    let mut i: usize = 0;
    while i < v.len()
        invariant
            i <= v.len(),
            r@ == v@.take(i as int),
        decreases v.len() - i,
    {
        r.push(v[i]);
        i = i + 1;
        assert(v@.take(i as int) =~= v@.take(i - 1).push(v@[i - 1]));
    }
    assert(v@.take(v.len() as int) =~= v@);
    r
}

/// The tree rooted at node `i`.
pub fn build_tree(a: &Vec<ArenaEntry>, i: usize) -> (n: DialogNode)
    requires
        i < a.len(),
        arena_wf(arena_view(a@)),
    ensures
        n@ == to_tree(arena_view(a@), i as int),
    decreases a.len() - i,
{
    let ghost v = arena_view(a@);
    let e = &a[i];
    assert(v[i as int] == e@);
    let dialog_type = copy_elements(&e.dialog_type);
    let character = match &e.character {
        Some((id, name)) => Some((*id, name.clone())),
        None => None,
    };
    let mut children: Vec<DialogNode> = Vec::new();
    let mut k: usize = 0;
    while k < e.children.len()
        invariant
            k <= e.children.len(),
            i < a.len(),
            e == a@[i as int],
            v == arena_view(a@),
            v[i as int] == e@,
            arena_wf(v),
            children@.len() == k,
            forall|j: int|
                0 <= j < k ==> #[trigger] children@[j]@ == to_tree(v, v[i as int].children[j]),
        decreases e.children.len() - k,
    {
        let c = e.children[k];
        assert(v[i as int].children[k as int] == c as int);
        children.push(build_tree(a, c));
        k = k + 1;
    }
    let trigger_event = copy_triggers(&e.trigger_event);
    let ghost kids = children@;
    let n = DialogNode { dialog_type, character, children, trigger_event };
    assert(n.children@ == kids);
    assert forall|j: int| 0 <= j < n@.children.len() implies n@.children[j] == to_tree(
        v,
        i as int,
    ).children[j] by {
        assert(i < v[i as int].children[j] < v.len());
        assert(kids[j]@ == to_tree(v, v[i as int].children[j]));
        assert(n.children@[j] == kids[j]);
        assert(n@.children[j] == n.children@[j]@);
    }
    assert(n@.children =~= to_tree(v, i as int).children);
    n
}

} // verus!

//! The decisions of the dialog panel: how a dialog goes on when the player
//! skips or chooses, and how its scrolls and boxes are animated.

use vstd::prelude::*;

use crate::constants::SCROLL_ANIMATION_FRAMES_NUMBER;
use crate::dialog::{karma_verified, types_model, DialogNode, DialogType, DialogTypeModel};
use crate::dialog_file::{parse_file, try_init_tree_file};
use crate::dialog_print::print_file_model;
use crate::text::str_to_chars;

verus! {

/// What the panel does with its dialog after a dive (a skip or a choice).
pub enum DiveAction {
    /// The dialog was already empty: it is cleared again, to be noticed.
    ForceClear,
    /// Several texts are still shown: the first one is dropped.
    DropFirstText,
    /// The node asks for a choice and the player only skipped: nothing.
    Stay,
    /// The node has no child: the dialog is over and cleared.
    Clear,
    /// The dialog goes on with the chosen child, in file form.
    SetTree(String),
}

/// What a dive does with the dialog `tree` (file form) when the upper
/// scroll shows `upper_texts` texts, the player picked child `child_index`,
/// and `skip` tells whether they only skipped. `None` where the dialog
/// cannot be read or the chosen child does not exist.
pub open spec fn dive_spec(tree: Seq<char>, upper_texts: int, child_index: int, skip: bool) -> Option<
    Option<Seq<char>>,
> {
    // Some(None) stands for the actions without a new tree.
    if tree.len() == 0 {
        Some(None)
    } else {
        match parse_file(tree) {
            None => None,
            Some(t) => if upper_texts > 1 {
                Some(None)
            } else if t.dialog_type.len() > 0 && t.dialog_type[0].is_choice() && skip {
                Some(None)
            } else if t.children.len() == 0 {
                Some(None)
            } else if child_index < t.children.len() {
                Some(Some(print_file_model(t.children[child_index], seq!['#'])))
            } else {
                None
            },
        }
    }
}

/// Decides how a dialog goes on after the player skipped (`skip`) or chose
/// the child `child_index`; `None` where the dialog cannot be read or has
/// no such child.
pub fn dive_decision(tree: &String, upper_texts: usize, child_index: usize, skip: bool) -> (r:
    Option<DiveAction>)
    requires
        tree@.len() < i32::MAX,
    ensures
        match r {
            None => dive_spec(tree@, upper_texts as int, child_index as int, skip) is None,
            Some(a) => {
                let t = parse_file(tree@)->0;
                match a {
                    DiveAction::ForceClear => tree@.len() == 0,
                    DiveAction::DropFirstText => tree@.len() > 0 && parse_file(tree@) is Some
                        && upper_texts > 1,
                    DiveAction::Stay => tree@.len() > 0 && parse_file(tree@) is Some && upper_texts
                        <= 1 && t.dialog_type.len() > 0 && t.dialog_type[0].is_choice() && skip,
                    DiveAction::Clear => tree@.len() > 0 && parse_file(tree@) is Some && upper_texts
                        <= 1 && !(t.dialog_type.len() > 0 && t.dialog_type[0].is_choice() && skip)
                        && t.children.len() == 0,
                    DiveAction::SetTree(s) => dive_spec(
                        tree@,
                        upper_texts as int,
                        child_index as int,
                        skip,
                    ) == Some(Some(s@)),
                }
            },
        },
{
    if tree.as_str().is_empty() {
        return Some(DiveAction::ForceClear);
    }
    let parsed = try_init_tree_file(tree.clone());
    match parsed {
        None => None,
        Some(t) => {
            if upper_texts > 1 {
                Some(DiveAction::DropFirstText)
            } else if t.is_choice() && skip {
                Some(DiveAction::Stay)
            } else if t.is_end_node() {
                Some(DiveAction::Clear)
            } else if child_index < t.children.len() {
                proof {
                    crate::dialog::lemma_child_model(t, child_index as int);
                    reveal_strlit("#");
                    assert("#"@ =~= seq!['#']);
                }
                Some(DiveAction::SetTree(t.children[child_index].print_file()))
            } else {
                None
            }
        },
    }
}

/// One frame of the scroll animation: the frame number goes down when
/// `reverse`, else up; the animation stops on the first frame, or on the
/// last frame going up.
pub fn scroll_frame_step(current_frame: usize, reverse: bool) -> (r: (usize, bool))
    requires
        reverse ==> current_frame > 0,
        !reverse ==> current_frame < usize::MAX,
    ensures
        reverse ==> r == (((current_frame - 1) as usize, current_frame - 1 == 0)),
        !reverse ==> r == (((current_frame + 1) as usize, current_frame + 1
            >= SCROLL_ANIMATION_FRAMES_NUMBER - 1)),
{
    if reverse {
        let f = current_frame - 1;
        (f, f == 0)
    } else {
        let f = current_frame + 1;
        (f, f >= SCROLL_ANIMATION_FRAMES_NUMBER - 1)
    }
}

/// Drops the first text of the upper scroll; `false` when it holds none.
pub fn drop_first_text(texts: &mut Vec<String>) -> (dropped: bool)
    ensures
        dropped == (old(texts)@.len() > 0),
        dropped ==> final(texts)@ == old(texts)@.drop_first(),
        !dropped ==> final(texts)@ == old(texts)@,
{
    if texts.len() == 0 {
        return false;
    }
    texts.remove(0);
    assert(old(texts)@.remove(0) =~= old(texts)@.drop_first());
    true
}

/// The number of choices shown by the player scroll, which has four
/// buttons: the first four choices are shown.
pub fn shown_choices(choices: usize) -> (r: usize)
    ensures
        r == (if choices < 4 {
            choices
        } else {
            4
        }),
{
    if choices < 4 {
        choices
    } else {
        4
    }
}

/// A choice button is shown when a choice stands at its index.
pub fn choice_button_visible(choice_index: usize, choices: usize) -> (r: bool)
    ensures
        r == (choice_index < choices),
{
    choice_index < choices
}

/// One step of the letter-by-letter display of `text`: the letter at
/// `progress`, the new progress, and whether the display is over (the
/// progress reaching the text's length in bytes); `None` when no letter
/// stands at `progress`.
pub fn next_letter(text: &String, progress: usize) -> (r: Option<(char, usize, bool)>)
    ensures
        match r {
            None => progress >= text@.len(),
            Some((c, p, finished)) => {
                &&& progress < text@.len()
                &&& c == text@[progress as int]
                &&& p == progress + 1
                &&& finished == (p >= (vstd::utf8::encode_utf8(text@).len() as usize))
            },
        },
{
    let chars = str_to_chars(text.as_str());
    if progress >= chars.len() {
        return None;
    }
    let c = chars[progress];
    let p = progress + 1;
    let finished = p >= text.as_str().len();
    Some((c, p, finished))
}

/// The texts of the elements that are texts, in order.
pub open spec fn panel_texts(ds: Seq<DialogTypeModel>) -> Seq<Seq<char>>
    decreases ds.len(),
{
    if ds.len() == 0 {
        Seq::empty()
    } else {
        let before = panel_texts(ds.drop_last());
        match ds.last() {
            DialogTypeModel::Text(t) => before.push(t),
            DialogTypeModel::Choice { .. } => before,
        }
    }
}

/// The texts of the choices that have no condition or whose karma
/// threshold `karma` meets, in order.
pub open spec fn panel_choices(ds: Seq<DialogTypeModel>, karma: int) -> Seq<Seq<char>>
    decreases ds.len(),
{
    if ds.len() == 0 {
        Seq::empty()
    } else {
        let before = panel_choices(ds.drop_last(), karma);
        match ds.last() {
            DialogTypeModel::Text(_) => before,
            DialogTypeModel::Choice { text, condition } => if (match condition {
                Some(c) => karma_verified(c, karma),
                None => true,
            }) {
                before.push(text)
            } else {
                before
            },
        }
    }
}

/// The characters of each string.
pub open spec fn strings_view(v: Seq<String>) -> Seq<Seq<char>> {
    v.map_values(|s: String| s@)
}

/// What the dialog panel shows of `node`: its texts, for the upper scroll,
/// and the choices that the player's `karma` may take, for the player
/// scroll (events are not checked here).
pub fn panel_content(node: &DialogNode, karma: i32) -> (r: (Vec<String>, Vec<String>))
    ensures
        strings_view(r.0@) == panel_texts(node@.dialog_type),
        strings_view(r.1@) == panel_choices(node@.dialog_type, karma as int),
{
    let mut texts: Vec<String> = Vec::new();
    let mut choices: Vec<String> = Vec::new();
    let ghost ds = types_model(node.dialog_type@);
    let mut i: usize = 0;
    assert(ds.take(0) =~= Seq::<DialogTypeModel>::empty());
    while i < node.dialog_type.len()
        invariant
            i <= node.dialog_type.len(),
            ds == types_model(node.dialog_type@),
            ds.len() == node.dialog_type.len(),
            strings_view(texts@) == panel_texts(ds.take(i as int)),
            strings_view(choices@) == panel_choices(ds.take(i as int), karma as int),
        decreases node.dialog_type.len() - i,
    {
        assert(ds.take(i + 1).drop_last() =~= ds.take(i as int));
        assert(ds.take(i + 1).last() == node.dialog_type@[i as int]@);
        match &node.dialog_type[i] {
            DialogType::Text(t) => {
                let ghost before = texts@;
                texts.push(t.clone());
                assert(strings_view(texts@) =~= strings_view(before).push(t@));
            },
            DialogType::Choice { text, condition } => {
                let shown = match condition {
                    Some(c) => c.is_verified(karma),
                    None => true,
                };
                if shown {
                    let ghost before = choices@;
                    choices.push(text.clone());
                    assert(strings_view(choices@) =~= strings_view(before).push(text@));
                }
            },
        }
        i = i + 1;
    }
    assert(ds.take(ds.len() as int) =~= ds);
    (texts, choices)
}


/// The panel's texts of a monologue are all its texts, in order.
pub proof fn lemma_panel_texts_of_monologue(ds: Seq<DialogTypeModel>)
    requires
        forall|i: int| 0 <= i < ds.len() ==> (#[trigger] ds[i]) is Text,
    ensures
        panel_texts(ds).len() == ds.len(),
        forall|i: int| 0 <= i < ds.len() ==> ds[i] == DialogTypeModel::Text(#[trigger] panel_texts(ds)[i]),
    decreases ds.len(),
{
    if ds.len() > 0 {
        let pre = ds.drop_last();
        assert forall|i: int| 0 <= i < pre.len() implies (#[trigger] pre[i]) is Text by {
            assert(pre[i] == ds[i]);
        }
        lemma_panel_texts_of_monologue(pre);
        assert(ds.last() is Text);
    }
}

/// The panel's texts of two runs of elements, one after the other, are
/// the texts of the first followed by the texts of the second; choices
/// bring no text.
pub proof fn lemma_panel_texts_split(a: Seq<DialogTypeModel>, b: Seq<DialogTypeModel>)
    ensures
        panel_texts(a + b) == panel_texts(a) + panel_texts(b),
    decreases b.len(),
{
    if b.len() == 0 {
        assert(a + b =~= a);
        assert(panel_texts(b) =~= Seq::<Seq<char>>::empty());
        assert(panel_texts(a) + panel_texts(b) =~= panel_texts(a));
    } else {
        lemma_panel_texts_split(a, b.drop_last());
        assert((a + b).drop_last() =~= a + b.drop_last());
        assert((a + b).last() == b.last());
        match b.last() {
            DialogTypeModel::Text(t) => {
                assert(panel_texts(a) + panel_texts(b.drop_last()).push(t) =~= (panel_texts(a)
                    + panel_texts(b.drop_last())).push(t));
            },
            DialogTypeModel::Choice { .. } => {},
        }
    }
}
} // verus!

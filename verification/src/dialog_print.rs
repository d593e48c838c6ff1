//! The two written forms of a dialog tree: the flat form
//! (`[parent]->[[child_1]; [child_2]]`) and the file form (markdown-like
//! headers, one line per element).

use vstd::prelude::*;

use crate::dialog::{
    str_to_string, ConditionModel, DialogCondition, DialogNode, DialogType, DialogTypeModel,
    GameEvent, NodeModel, ThrowableEvent,
};
use crate::file_format::{
    condition_text, events_text, file_text, hashes, karma_text, line_text, names_text, tree_ok,
    trigger_names, triggers_text, written_events,
};
use crate::text::{
    chars_to_string, extend_chars, extend_str, push_i32, replace_all, replace_str, str_to_chars,
};

verus! {

/// The parts joined with `sep` between each two of them (`[T]::join`).
pub open spec fn join(parts: Seq<Seq<char>>, sep: Seq<char>) -> Seq<char>
    decreases parts.len(),
{
    if parts.len() == 0 {
        Seq::empty()
    } else if parts.len() == 1 {
        parts[0]
    } else {
        join(parts.drop_last(), sep) + sep + parts.last()
    }
}

/// The text of an element, whether it is a text or a choice.
pub open spec fn element_text(d: DialogTypeModel) -> Seq<char> {
    match d {
        DialogTypeModel::Text(t) => t,
        DialogTypeModel::Choice { text, .. } => text,
    }
}

/// Every element's text, each followed by `", "`.
pub open spec fn flat_elements(ds: Seq<DialogTypeModel>) -> Seq<char>
    decreases ds.len(),
{
    if ds.len() == 0 {
        Seq::empty()
    } else {
        flat_elements(ds.drop_last()) + element_text(ds.last()) + ", "@
    }
}

/// The flat forms of the children of a node, in order.
pub open spec fn flat_children(m: NodeModel) -> Seq<Seq<char>>
    decreases m, 0int,
{
    Seq::new(
        m.children.len(),
        |i: int|
            if 0 <= i < m.children.len() {
                print_flat_model(m.children[i])
            } else {
                Seq::empty()
            },
    )
}

/// The flat form of a node: its elements in brackets, then `->` and the
/// bracketed flat forms of its children separated by `"; "`; the separator
/// after the last element or child is dropped, and so is `->[]` (no child).
pub open spec fn print_flat_model(m: NodeModel) -> Seq<char>
    decreases m, 1int,
{
    let head = replace_all("["@ + flat_elements(m.dialog_type) + "]"@, ", ]"@, "]"@);
    let whole = head + "->["@ + join(flat_children(m), "; "@) + "]"@;
    replace_all(replace_all(whole, "; ]"@, "]"@), "->[]"@, ""@)
}

/// The condition as `print_file` first writes it: a karma threshold
/// without events is followed by a blank.
pub open spec fn raw_condition_text(c: Option<ConditionModel>) -> Seq<char> {
    match c {
        Some(cm) => match (cm.karma_threshold, written_events(cm.event)) {
            (Some((a, b)), None) => karma_text(a, b) + seq![' '],
            _ => condition_text(c),
        },
        None => condition_text(c),
    }
}

/// An element line as `print_file` first writes it.
pub open spec fn raw_line_text(e: DialogTypeModel) -> Seq<char> {
    match e {
        DialogTypeModel::Text(_) => line_text(e),
        DialogTypeModel::Choice { text, condition } => seq!['-', ' '] + text + seq![' ', '|', ' ']
            + raw_condition_text(condition) + seq!['\n'],
    }
}

/// The element lines as `print_file` first writes them.
pub open spec fn raw_lines_text(ds: Seq<DialogTypeModel>) -> Seq<char>
    decreases ds.len(),
{
    if ds.len() == 0 {
        Seq::empty()
    } else {
        raw_lines_text(ds.drop_last()) + raw_line_text(ds.last())
    }
}

/// The name part of a header line.
pub open spec fn speaker(m: NodeModel) -> Seq<char> {
    match m.character {
        Some((_id, name)) => seq![' '] + name,
        None => seq![' ', 'N', 'a', 'r', 'a', 't', 'o', 'r'],
    }
}

/// The passes by which `print_file` smooths what it first writes: a blank
/// before a line end goes, `#` blank-line `#` becomes `##`, three line
/// ends become two, and the end marker `END` goes (with the line ends
/// before it, at the very end).
pub open spec fn smooth(r0: Seq<char>) -> Seq<char> {
    let r1 = replace_all(r0, seq![' ', '\n'], seq!['\n']);
    let r2 = replace_all(r1, seq!['#', '\n', '\n', '#'], seq!['#', '#']);
    let r3 = replace_all(r2, seq!['\n', '\n', '\n'], seq!['\n', '\n']);
    let r4 = replace_all(r3, seq!['E', 'N', 'D', '#'], seq!['#']);
    replace_all(r4, seq!['\n', '\n', 'E', 'N', 'D'], seq!['\n'])
}

/// What `print_file` writes of the children of a node, one level deeper.
pub open spec fn file_children(m: NodeModel, headers: Seq<char>) -> Seq<Seq<char>>
    decreases m, 0int,
{
    Seq::new(
        m.children.len(),
        |i: int|
            if 0 <= i < m.children.len() {
                print_file_model(m.children[i], headers + seq!['#'])
            } else {
                Seq::empty()
            },
    )
}

/// What `print_file` writes of a node under `headers` (one `#` per
/// level): its header line, a blank line, its element lines, the line of
/// the events it throws, an end marker, then its children joined by blank
/// lines, all smoothed (see `smooth`). For a tree that the file form
/// carries this is its file form (`lemma_print_is_file_text`).
pub open spec fn print_file_model(m: NodeModel, headers: Seq<char>) -> Seq<char>
    decreases m, 1int,
{
    smooth(
        headers + speaker(m) + seq!['\n', '\n'] + raw_lines_text(m.dialog_type) + triggers_text(
            m.trigger_event,
        ) + seq!['\n', '\n', 'E', 'N', 'D'] + join(file_children(m, headers), seq!['\n', '\n']),
    )
}

/// Joins character vectors with `sep` between each two of them.
fn join_chars(parts: &Vec<Vec<char>>, sep: &Vec<char>) -> (r: Vec<char>)
    ensures
        r@ == join(parts@.map_values(|p: Vec<char>| p@), sep@),
{
    let ghost views = parts@.map_values(|p: Vec<char>| p@);
    let mut r: Vec<char> = Vec::new();
    let mut i: usize = 0;
    assert(views.take(0) =~= Seq::<Seq<char>>::empty());
    while i < parts.len()
        invariant
            i <= parts.len(),
            views == parts@.map_values(|p: Vec<char>| p@),
            r@ == join(views.take(i as int), sep@),
        decreases parts.len() - i,
    {
        assert(views.take(i + 1).drop_last() =~= views.take(i as int));
        if i > 0 {
            extend_chars(&mut r, sep);
        } else {
            assert(r@ =~= Seq::<char>::empty());
        }
        extend_chars(&mut r, &parts[i]);
        i = i + 1;
    }
    assert(views.take(parts.len() as int) =~= views);
    r
}

fn element_text_chars(d: &DialogType) -> (r: Vec<char>)
    ensures
        r@ == element_text(d@),
{
    match d {
        DialogType::Text(text) => str_to_chars(text.as_str()),
        DialogType::Choice { text, .. } => str_to_chars(text.as_str()),
    }
}

fn push_event_names(res: &mut Vec<char>, evs: &Vec<GameEvent>)
    ensures
        final(res)@ == old(res)@ + names_text(evs@),
{
    let mut i: usize = 0;
    assert(evs@.take(0) =~= Seq::<GameEvent>::empty());
    while i < evs.len()
        invariant
            i <= evs.len(),
            res@ == old(res)@ + names_text(evs@.take(i as int)),
        decreases evs.len() - i,
    {
        assert(evs@.take(i + 1).drop_last() =~= evs@.take(i as int));
        assert(evs@.take(i + 1).last() == evs@[i as int]);
        if i > 0 {
            res.push(',');
        }
        let name = evs[i].to_string();
        extend_str(res, name.as_str());
        i = i + 1;
        assert(res@ =~= old(res)@ + names_text(evs@.take(i as int)));
    }
    assert(evs@.take(evs.len() as int) =~= evs@);
}

fn push_trigger_names(res: &mut Vec<char>, evs: &Vec<ThrowableEvent>)
    ensures
        final(res)@ == old(res)@ + trigger_names(evs@),
{
    let mut i: usize = 0;
    assert(evs@.take(0) =~= Seq::<ThrowableEvent>::empty());
    while i < evs.len()
        invariant
            i <= evs.len(),
            res@ == old(res)@ + trigger_names(evs@.take(i as int)),
        decreases evs.len() - i,
    {
        assert(evs@.take(i + 1).drop_last() =~= evs@.take(i as int));
        assert(evs@.take(i + 1).last() == evs@[i as int]);
        if i > 0 {
            res.push(',');
        }
        let name = evs[i].to_string();
        extend_str(res, name.as_str());
        i = i + 1;
        assert(res@ =~= old(res)@ + trigger_names(evs@.take(i as int)));
    }
    assert(evs@.take(evs.len() as int) =~= evs@);
}

fn push_karma(res: &mut Vec<char>, a: i32, b: i32)
    ensures
        final(res)@ == old(res)@ + karma_text(a, b),
{
    extend_str(res, "karma: ");
    proof { reveal_strlit("karma: "); }
    push_i32(res, a);
    res.push(',');
    push_i32(res, b);
    res.push(';');
    assert(res@ =~= old(res)@ + karma_text(a, b));
}

fn push_events(res: &mut Vec<char>, evs: &Vec<GameEvent>)
    ensures
        final(res)@ == old(res)@ + events_text(evs@),
{
    extend_str(res, "event: ");
    proof { reveal_strlit("event: "); }
    let ghost mid = res@;
    push_event_names(res, evs);
    res.push(';');
    assert(res@ =~= old(res)@ + events_text(evs@));
}

fn push_condition(res: &mut Vec<char>, c: &Option<DialogCondition>)
    ensures
        final(res)@ == old(res)@ + raw_condition_text(
            match c {
                Some(c) => Some(c@),
                None => None,
            },
        ),
{
    match c {
        Some(dc) => {
            let events: Option<&Vec<GameEvent>> = match &dc.event {
                Some(evs) => if evs.len() > 0 {
                    Some(evs)
                } else {
                    None
                },
                None => None,
            };
            match (dc.karma_threshold, events) {
                (Some((a, b)), Some(evs)) => {
                    push_karma(res, a, b);
                    res.push(' ');
                    push_events(res, evs);
                },
                (Some((a, b)), None) => {
                    push_karma(res, a, b);
                    res.push(' ');
                },
                (None, Some(evs)) => {
                    push_events(res, evs);
                },
                (None, None) => {},
            }
            assert(res@ =~= old(res)@ + raw_condition_text(Some(dc@)));
        },
        None => {
            extend_str(res, "None");
            proof { reveal_strlit("None"); }
            assert(res@ =~= old(res)@ + raw_condition_text(None));
        },
    }
}

fn push_line(res: &mut Vec<char>, d: &DialogType)
    ensures
        final(res)@ == old(res)@ + raw_line_text(d@),
{
    proof { reveal_strlit("- "); reveal_strlit(" | "); }
    match d {
        DialogType::Text(text) => {
            extend_str(res, "- ");
            extend_str(res, text.as_str());
            res.push('\n');
        },
        DialogType::Choice { text, condition } => {
            extend_str(res, "- ");
            extend_str(res, text.as_str());
            extend_str(res, " | ");
            push_condition(res, condition);
            res.push('\n');
        },
    }
    assert(res@ =~= old(res)@ + raw_line_text(d@));
}

impl DialogNode {
    fn flat_chars(&self) -> (r: Vec<char>)
        ensures
            r@ == print_flat_model(self@),
        decreases self,
    {
        let mut res = str_to_chars("[");
        let mut i: usize = 0;
        assert(self@.dialog_type.take(0) =~= Seq::<DialogTypeModel>::empty());
        while i < self.dialog_type.len()
            invariant
                i <= self.dialog_type.len(),
                self@.dialog_type.len() == self.dialog_type.len(),
                res@ == "["@ + flat_elements(self@.dialog_type.take(i as int)),
            decreases self.dialog_type.len() - i,
        {
            assert(self@.dialog_type.take(i + 1).drop_last() =~= self@.dialog_type.take(i as int));
            assert(self@.dialog_type[i as int] == self.dialog_type@[i as int]@);
            let t = element_text_chars(&self.dialog_type[i]);
            extend_chars(&mut res, &t);
            extend_str(&mut res, ", ");
            i = i + 1;
            assert(res@ =~= "["@ + flat_elements(self@.dialog_type.take(i as int)));
        }
        assert(self@.dialog_type.take(i as int) =~= self@.dialog_type);
        extend_str(&mut res, "]");
        assert(res@ =~= "["@ + flat_elements(self@.dialog_type) + "]"@);
        proof { reveal_strlit(", ]"); }
        let head = replace_str(&res, ", ]", "]");

        let ghost kids = flat_children(self@);
        let mut parts: Vec<Vec<char>> = Vec::new();
        let mut j: usize = 0;
        while j < self.children.len()
            invariant
                j <= self.children.len(),
                self@.children.len() == self.children.len(),
                parts@.len() == j,
                forall|k: int|
                    0 <= k < j ==> #[trigger] parts@[k]@ == print_flat_model(self@.children[k]),
            decreases self.children.len() - j,
        {
            let p = self.children[j].flat_chars();
            parts.push(p);
            j = j + 1;
        }
        assert(parts@.map_values(|p: Vec<char>| p@) =~= kids);
        let sep = str_to_chars("; ");
        let joined = join_chars(&parts, &sep);
        let mut whole = head;
        extend_str(&mut whole, "->[");
        extend_chars(&mut whole, &joined);
        extend_str(&mut whole, "]");
        assert(whole@ =~= head@ + "->["@ + join(kids, "; "@) + "]"@);
        proof { reveal_strlit("; ]"); }
        proof { reveal_strlit("->[]"); }
        let w1 = replace_str(&whole, "; ]", "]");
        let r = replace_str(&w1, "->[]", "");
        assert(r@ == print_flat_model(self@));
        r
    }

    /// The flat form of the tree rooted here, such as
    /// `[Hello]->[[Hey, No Hello]->[[:)]; [:O]]]`.
    pub fn print_flat(&self) -> (r: String)
        ensures
            r@ == print_flat_model(self@),
    {
        let v = self.flat_chars();
        chars_to_string(&v)
    }

    fn file_chars(&self, headers: &Vec<char>) -> (r: Vec<char>)
        ensures
            r@ == print_file_model(self@, headers@),
        decreases self,
    {
        let mut res: Vec<char> = Vec::new();
        extend_chars(&mut res, headers);
        res.push(' ');
        match &self.character {
            Some((_id, name)) => {
                extend_str(&mut res, name.as_str());
            },
            None => {
                extend_str(&mut res, "Narator");
                proof { reveal_strlit("Narator"); }
                assert("Narator"@ =~= seq!['N', 'a', 'r', 'a', 't', 'o', 'r']);
            },
        }
        res.push('\n');
        res.push('\n');
        let ghost start = res@;
        assert(start =~= headers@ + speaker(self@) + seq!['\n', '\n']);
        let ghost ds = self@.dialog_type;
        let mut i: usize = 0;
        assert(ds.take(0) =~= Seq::<DialogTypeModel>::empty());
        while i < self.dialog_type.len()
            invariant
                i <= self.dialog_type.len(),
                ds == self@.dialog_type,
                ds.len() == self.dialog_type.len(),
                res@ == start + raw_lines_text(ds.take(i as int)),
            decreases self.dialog_type.len() - i,
        {
            assert(ds[i as int] == self.dialog_type@[i as int]@);
            assert(ds.take(i + 1).drop_last() =~= ds.take(i as int));
            push_line(&mut res, &self.dialog_type[i]);
            i = i + 1;
            assert(res@ =~= start + raw_lines_text(ds.take(i as int)));
        }
        assert(ds.take(i as int) =~= ds);
        if self.trigger_event.len() > 0 {
            extend_str(&mut res, "-> ");
            proof { reveal_strlit("-> "); }
            push_trigger_names(&mut res, &self.trigger_event);
            res.push('\n');
        }
        extend_str(&mut res, "\n\nEND");
        proof { reveal_strlit("\n\nEND"); }
        let ghost body = res@;
        assert(body =~= start + raw_lines_text(ds) + triggers_text(self@.trigger_event) + seq![
            '\n',
            '\n',
            'E',
            'N',
            'D',
        ]);
        let mut deeper: Vec<char> = Vec::new();
        extend_chars(&mut deeper, headers);
        deeper.push('#');
        let ghost kids = file_children(self@, headers@);
        let mut parts: Vec<Vec<char>> = Vec::new();
        let mut j: usize = 0;
        while j < self.children.len()
            invariant
                j <= self.children.len(),
                self@.children.len() == self.children.len(),
                deeper@ == headers@ + seq!['#'],
                parts@.len() == j,
                forall|k: int|
                    0 <= k < j ==> #[trigger] parts@[k]@ == print_file_model(
                        self@.children[k],
                        headers@ + seq!['#'],
                    ),
            decreases self.children.len() - j,
        {
            proof {
                crate::dialog::lemma_child_model(*self, j as int);
            }
            let p = self.children[j].file_chars(&deeper);
            parts.push(p);
            j = j + 1;
        }
        assert(parts@.map_values(|p: Vec<char>| p@) =~= kids);
        let sep = str_to_chars("\n\n");
        proof { reveal_strlit("\n\n"); }
        assert(sep@ =~= seq!['\n', '\n']);
        let joined = join_chars(&parts, &sep);
        extend_chars(&mut res, &joined);
        proof {
            reveal_strlit(" \n");
            reveal_strlit("\n");
            reveal_strlit("#\n\n#");
            reveal_strlit("##");
            reveal_strlit("\n\n\n");
            reveal_strlit("END#");
            reveal_strlit("#");
            assert(" \n"@ =~= seq![' ', '\n']);
            assert("\n"@ =~= seq!['\n']);
            assert("#\n\n#"@ =~= seq!['#', '\n', '\n', '#']);
            assert("##"@ =~= seq!['#', '#']);
            assert("\n\n\n"@ =~= seq!['\n', '\n', '\n']);
            assert("\n\n"@ =~= seq!['\n', '\n']);
            assert("END#"@ =~= seq!['E', 'N', 'D', '#']);
            assert("#"@ =~= seq!['#']);
            assert("\n\nEND"@ =~= seq!['\n', '\n', 'E', 'N', 'D']);
        }
        let r1 = replace_str(&res, " \n", "\n");
        let r2 = replace_str(&r1, "#\n\n#", "##");
        let r3 = replace_str(&r2, "\n\n\n", "\n\n");
        let r4 = replace_str(&r3, "END#", "#");
        let r = replace_str(&r4, "\n\nEND", "\n");
        assert(r@ == print_file_model(self@, headers@));
        r
    }

    fn print_file_aux(&self, headers: String) -> (r: String)
        ensures
            r@ == print_file_model(self@, headers@),
    {
        let h = str_to_chars(headers.as_str());
        let v = self.file_chars(&h);
        chars_to_string(&v)
    }

    /// The file form of the tree rooted here: `# Speaker`, a blank line, one
    /// `- element` line per element (a choice followed by ` | ` and its
    /// condition), `-> Event` when the node throws events, then each child
    /// one header level deeper, after a blank line; blanks at line ends
    /// are dropped (see `print_file_model`). For a tree that the file form
    /// carries this is exactly `file_text`.
    pub fn print_file(&self) -> (r: String)
        ensures
            r@ == print_file_model(self@, "#"@),
            tree_ok(self@) ==> r@ == file_text(self@, 1),
    {
        proof {
            reveal_strlit("#");
            assert(hashes(0) =~= Seq::<char>::empty());
            assert(hashes(1) =~= seq!['#']);
            assert("#"@ =~= seq!['#']);
            if tree_ok(self@) {
                crate::file_writing::lemma_print_is_file_text(self@, 1);
            }
        }
        self.print_file_aux(str_to_string("#"))
    }
}

} // verus!

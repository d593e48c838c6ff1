//! The file form of well-formed dialog trees, and the proof that reading
//! it gives the tree back.

use vstd::prelude::*;

use crate::arena::{
    arena_wf, blank, climb, to_tree, with_character, with_child, with_element, with_trigger,
    ArenaNode,
};
use crate::dialog::{
    game_event_name, game_event_named, throwable_event_name, throwable_event_named,
    ConditionModel, DialogTypeModel, GameEvent, NodeModel, ThrowableEvent,
};
use crate::dialog_file::{
    choice_line, file_run, file_start, file_step, header_line, karma_value, no_condition,
    parse_file, text_line, FileState,
};
use crate::text::{
    all_digits, alphanumeric, digit_char, digit_value, digits_value, int_to_decimal, is_ascii_char,
    is_digit, nat_digits, trim_end_spaces, trim_start_spaces,
};

verus! {

// ---------------------------------------------------------------------------
// The file form

/// `#` written `d` times: the header of a node at depth `d`.
pub open spec fn hashes(d: nat) -> Seq<char>
    decreases d,
{
    if d == 0 {
        Seq::empty()
    } else {
        hashes((d - 1) as nat).push('#')
    }
}

/// The names of the events separated by `,`.
pub open spec fn names_text(evs: Seq<GameEvent>) -> Seq<char>
    decreases evs.len(),
{
    if evs.len() == 0 {
        Seq::empty()
    } else if evs.len() == 1 {
        game_event_name(evs[0])
    } else {
        names_text(evs.drop_last()) + seq![','] + game_event_name(evs.last())
    }
}

/// `karma: a,b;`
pub open spec fn karma_text(a: i32, b: i32) -> Seq<char> {
    seq!['k', 'a', 'r', 'm', 'a', ':', ' '] + int_to_decimal(a as int) + seq![','] + int_to_decimal(
        b as int,
    ) + seq![';']
}

/// `event: e1,e2;`
pub open spec fn events_text(evs: Seq<GameEvent>) -> Seq<char> {
    seq!['e', 'v', 'e', 'n', 't', ':', ' '] + names_text(evs) + seq![';']
}

/// The events of a condition that are written: none when the list is
/// empty.
pub open spec fn written_events(e: Option<Seq<GameEvent>>) -> Option<Seq<GameEvent>> {
    match e {
        Some(evs) => if evs.len() > 0 {
            Some(evs)
        } else {
            None
        },
        None => None,
    }
}

/// What follows ` | ` on a choice line: `None`, or the karma bounds and
/// the events that the condition asks.
pub open spec fn condition_text(c: Option<ConditionModel>) -> Seq<char> {
    match c {
        None => seq!['N', 'o', 'n', 'e'],
        Some(c) => match (c.karma_threshold, written_events(c.event)) {
            (Some((a, b)), Some(evs)) => karma_text(a, b) + seq![' '] + events_text(evs),
            (Some((a, b)), None) => karma_text(a, b),
            (None, Some(evs)) => events_text(evs),
            (None, None) => Seq::empty(),
        },
    }
}

/// The line of one element: `- text` or `- text | condition`.
pub open spec fn line_text(e: DialogTypeModel) -> Seq<char> {
    match e {
        DialogTypeModel::Text(t) => seq!['-', ' '] + t + seq!['\n'],
        DialogTypeModel::Choice { text, condition } => seq!['-', ' '] + text + seq![' ', '|', ' ']
            + condition_text(condition) + seq!['\n'],
    }
}

/// The lines of the elements, in order.
pub open spec fn lines_text(ds: Seq<DialogTypeModel>) -> Seq<char>
    decreases ds.len(),
{
    if ds.len() == 0 {
        Seq::empty()
    } else {
        lines_text(ds.drop_last()) + line_text(ds.last())
    }
}

/// The name of the speaker of a node.
pub open spec fn speaker_name(t: NodeModel) -> Seq<char> {
    match t.character {
        Some((_id, name)) => name,
        None => seq!['N', 'a', 'r', 'a', 't', 'o', 'r'],
    }
}

/// The names of the thrown events separated by `,`.
pub open spec fn trigger_names(evs: Seq<ThrowableEvent>) -> Seq<char>
    decreases evs.len(),
{
    if evs.len() == 0 {
        Seq::empty()
    } else if evs.len() == 1 {
        throwable_event_name(evs[0])
    } else {
        trigger_names(evs.drop_last()) + seq![','] + throwable_event_name(evs.last())
    }
}

/// The line `-> e1,e2` when the node throws events; nothing when it
/// throws none.
pub open spec fn triggers_text(evs: Seq<ThrowableEvent>) -> Seq<char> {
    if evs.len() == 0 {
        Seq::empty()
    } else {
        seq!['-', '>', ' '] + trigger_names(evs) + seq!['\n']
    }
}

/// The file form of the node `t` at depth `d`: its header line, a blank
/// line, its element lines, the line of the events it throws, then each
/// child one level deeper, after a blank line.
pub open spec fn file_text(t: NodeModel, d: nat) -> Seq<char>
    decreases t, 1int, 0int,
{
    hashes(d) + seq![' '] + speaker_name(t) + seq!['\n', '\n'] + lines_text(t.dialog_type)
        + triggers_text(t.trigger_event) + children_text(t, d, t.children.len() as int)
}

/// The file forms of the first `k` children of `t`, each after a blank
/// line.
pub open spec fn children_text(t: NodeModel, d: nat, k: int) -> Seq<char>
    decreases t, 0int, k,
{
    if k <= 0 || k > t.children.len() {
        Seq::empty()
    } else {
        children_text(t, d, k - 1) + seq!['\n'] + file_text(t.children[k - 1], d + 1)
    }
}

// ---------------------------------------------------------------------------
// The trees that the file form carries unchanged

/// A character that stands for itself in a text or a name: kept by the
/// reader, and meaning nothing else to it (`,` and `;` too, as long as no
/// event list is open).
pub open spec fn plain_char(c: char) -> bool {
    &&& is_ascii_char(c) || alphanumeric(c)
    &&& c != '#' && c != '-' && c != '>' && c != '|' && c != '/' && c != '\n'
}

/// A character that stands for itself in a speaker's name: a plain
/// character, `>` or `|`.
pub open spec fn name_char(c: char) -> bool {
    plain_char(c) || c == '>' || c == '|'
}

/// A name that the file form writes and reads back unchanged: not empty,
/// made of name characters, without a blank at either end.
pub open spec fn plain_name(s: Seq<char>) -> bool {
    &&& s.len() > 0
    &&& s[0] != ' '
    &&& s.last() != ' '
    &&& forall|i: int| 0 <= i < s.len() ==> name_char(#[trigger] s[i])
}

/// `s` holds neither `,` nor `;`.
pub open spec fn separator_free(s: Seq<char>) -> bool {
    forall|i: int| 0 <= i < s.len() ==> s[i] != ',' && s[i] != ';'
}

/// A text or a name that the file form writes and reads back unchanged:
/// not empty, made of plain characters, without a blank at either end.
pub open spec fn plain_text(s: Seq<char>) -> bool {
    &&& s.len() > 0
    &&& s[0] != ' '
    &&& s.last() != ' '
    &&& forall|i: int| 0 <= i < s.len() ==> plain_char(#[trigger] s[i])
}

/// A condition that the file form writes and reads back: it asks
/// something, its karma bounds are in order, its event list is not empty.
pub open spec fn condition_ok(c: Option<ConditionModel>) -> bool {
    match c {
        None => true,
        Some(c) => {
            &&& c.karma_threshold is Some || c.event is Some
            &&& c.karma_threshold matches Some((a, b)) ==> a <= b
            &&& c.event matches Some(evs) ==> evs.len() > 0
        },
    }
}

/// The text of an element.
pub open spec fn text_of(e: DialogTypeModel) -> Seq<char> {
    match e {
        DialogTypeModel::Text(t) => t,
        DialogTypeModel::Choice { text, .. } => text,
    }
}

/// The condition of an element (`None` for a text).
pub open spec fn condition_of(e: DialogTypeModel) -> Option<ConditionModel> {
    match e {
        DialogTypeModel::Text(_) => None,
        DialogTypeModel::Choice { condition, .. } => condition,
    }
}

/// One node, without its children, as the file form carries it: a named
/// speaker with id 0, at least one element, plain texts, conditions that
/// ask something, and no text after a choice.
pub open spec fn node_ok(t: NodeModel) -> bool {
    &&& t.character matches Some((id, name)) && id == 0 && plain_name(name)
    &&& t.dialog_type.len() > 0
    &&& forall|i: int|
        0 <= i < t.dialog_type.len() ==> plain_text(text_of(#[trigger] t.dialog_type[i]))
            && condition_ok(condition_of(t.dialog_type[i]))
    &&& forall|i: int, j: int|
        0 <= i < j < t.dialog_type.len() && (#[trigger] t.dialog_type[i]) is Choice ==> (
        #[trigger] t.dialog_type[j]) is Choice
}

/// Every node of the tree is carried by the file form (see `node_ok`).
pub open spec fn tree_ok(t: NodeModel) -> bool
    decreases t,
{
    &&& node_ok(t)
    &&& forall|k: int| 0 <= k < t.children.len() ==> tree_ok(#[trigger] t.children[k])
}

// ---------------------------------------------------------------------------
// What the reader remembers of the conditions read so far

/// The reader's event memory inside a condition: `Clear` (no event list
/// open), `Waiting` (an `e` was seen, waiting for `:`), `Open` (an event
/// list is open and takes every further character).
pub enum Memory {
    Clear,
    Waiting,
    Open,
}

/// The memory once the condition `c` of a choice line is read from memory
/// `m` (the end of the line then clears it); `None` where reading
/// that line stops on an error.
pub open spec fn after_condition(m: Memory, c: Option<ConditionModel>) -> Option<Memory> {
    match c {
        None => Some(
            match m {
                Memory::Clear => Memory::Waiting,
                Memory::Waiting => Memory::Waiting,
                Memory::Open => Memory::Open,
            },
        ),
        Some(c) => if c.event is None {
            Some(
                match m {
                    Memory::Clear => Memory::Clear,
                    Memory::Waiting => Memory::Open,
                    Memory::Open => Memory::Open,
                },
            )
        } else if c.karma_threshold is None {
            match m {
                Memory::Open => None,
                _ => Some(Memory::Clear),
            }
        } else {
            match m {
                Memory::Clear => Some(Memory::Clear),
                _ => None,
            }
        },
    }
}

/// The reader's state agrees with the memory `m`.
pub open spec fn memory_holds(st: FileState, m: Memory) -> bool {
    match m {
        Memory::Clear => !st.event_phase && st.event.len() == 0,
        Memory::Waiting => st.event_phase && st.post_colon && st.event.len() == 0,
        Memory::Open => st.event_phase && !st.post_colon,
    }
}

/// The reader between two lines: no phase open, nothing pending, no event
/// list begun.
pub open spec fn resting(st: FileState) -> bool {
    &&& !st.event_phase && !st.post_colon && st.event.len() == 0
    &&& !st.author_phase && !st.content_phase && !st.condition_phase
    &&& !st.karma_phase && !st.trigger_phase
    &&& !st.except
    &&& st.save.len() == 0 && st.author.len() == 0 && st.karma.len() == 0
    &&& st.condition == no_condition()
    &&& st.header_numbers == 0
}

// ---------------------------------------------------------------------------
// Reading a piece of text

/// The state reached from `st` by reading the characters of `w`.
pub open spec fn run_from(st: FileState, w: Seq<char>) -> Option<FileState>
    decreases w.len(),
{
    if w.len() == 0 {
        Some(st)
    } else {
        match run_from(st, w.drop_last()) {
            Some(s) => file_step(s, w.last()),
            None => None,
        }
    }
}

/// Reading `u + v` is reading `u`, then `v`.
pub proof fn lemma_run_concat(st: FileState, u: Seq<char>, v: Seq<char>)
    ensures
        run_from(st, u + v) == match run_from(st, u) {
            Some(s) => run_from(s, v),
            None => None,
        },
    decreases v.len(),
{
    if v.len() == 0 {
        assert(u + v =~= u);
    } else {
        assert((u + v).drop_last() =~= u + v.drop_last());
        assert((u + v).last() == v.last());
        lemma_run_concat(st, u, v.drop_last());
    }
}

proof fn lemma_run_then(st: FileState, u: Seq<char>, v: Seq<char>, mid: FileState)
    requires
        run_from(st, u) == Some(mid),
    ensures
        run_from(st, u + v) == run_from(mid, v),
{
    lemma_run_concat(st, u, v);
}

proof fn lemma_file_run_is_run_from(s: Seq<char>, k: int)
    requires
        0 <= k <= s.len(),
    ensures
        file_run(s, k) == run_from(file_start(), s.take(k)),
    decreases k,
{
    if k > 0 {
        lemma_file_run_is_run_from(s, k - 1);
        assert(s.take(k).drop_last() =~= s.take(k - 1));
        assert(s.take(k).last() == s[k - 1]);
    }
}

proof fn lemma_run_single(st: FileState, c: char)
    ensures
        run_from(st, seq![c]) == file_step(st, c),
{
    assert(seq![c].drop_last() =~= Seq::<char>::empty());
    assert(run_from(st, Seq::<char>::empty()) == Some(st));
}

// ---------------------------------------------------------------------------
// The arena that the reader fills

/// Node `q` of the arena holds the tree `t`: its own fields, and each
/// child at a later index holding the matching subtree.
pub open spec fn laid_out(a: Seq<ArenaNode>, q: int, t: NodeModel) -> bool
    decreases t,
{
    &&& 0 <= q < a.len()
    &&& a[q].dialog_type == t.dialog_type
    &&& a[q].character == t.character
    &&& a[q].trigger_event == t.trigger_event
    &&& a[q].children.len() == t.children.len()
    &&& forall|k: int|
        0 <= k < t.children.len() ==> q < #[trigger] a[q].children[k] < a.len() && laid_out(
            a,
            a[q].children[k],
            t.children[k],
        )
}

pub(crate) proof fn lemma_laid_out_tree(a: Seq<ArenaNode>, q: int, t: NodeModel)
    requires
        laid_out(a, q, t),
    ensures
        to_tree(a, q) == t,
    decreases t,
{
    let r = to_tree(a, q);
    assert forall|k: int| 0 <= k < t.children.len() implies r.children[k] == t.children[k] by {
        lemma_laid_out_tree(a, a[q].children[k], t.children[k]);
    }
    assert(r.children =~= t.children);
}

/// Changing nothing at or after `q` (but appending) keeps what `q` holds.
pub(crate) proof fn lemma_laid_out_frame(a: Seq<ArenaNode>, b: Seq<ArenaNode>, q: int, t: NodeModel)
    requires
        laid_out(a, q, t),
        a.len() <= b.len(),
        forall|i: int| q <= i < a.len() ==> b[i] == a[i],
    ensures
        laid_out(b, q, t),
    decreases t,
{
    assert forall|k: int| 0 <= k < t.children.len() implies q < #[trigger] b[q].children[k]
        < b.len() && laid_out(b, b[q].children[k], t.children[k]) by {
        lemma_laid_out_frame(a, b, a[q].children[k], t.children[k]);
    }
}

proof fn lemma_climb_step(a: Seq<ArenaNode>, c: int, n: int, x: int, p: int)
    requires
        n >= 0,
        climb(a, c, n) == Some(x),
        a[x].parent == Some(p),
    ensures
        climb(a, c, n + 1) == Some(p),
    decreases n,
{
    if n > 0 {
        match a[c].parent {
            Some(c1) => {
                lemma_climb_step(a, c1, n - 1, x, p);
            },
            None => {},
        }
    } else {
        assert(x == c);
        assert(climb(a, p, 0) == Some(p));
    }
}

pub(crate) proof fn lemma_wf_with_child(a: Seq<ArenaNode>, p: int)
    requires
        arena_wf(a),
        0 <= p < a.len(),
    ensures
        arena_wf(with_child(a, p)),
{
    let b = with_child(a, p);
    assert forall|i: int, k: int|
        0 <= i < b.len() && 0 <= k < b[i].children.len() implies i < #[trigger] b[i].children[k]
        < b.len() by {
        if i == p && k == a[p].children.len() {
        } else if i < a.len() {
            assert(b[i].children[k] == a[i].children[k]);
        }
    }
    assert forall|i: int| 0 <= i < b.len() implies match #[trigger] b[i].parent {
        Some(x) => 0 <= x < i,
        None => true,
    } by {
        if i < a.len() {
            assert(b[i].parent == a[i].parent);
        }
    }
}

pub(crate) proof fn lemma_wf_with_fields(a: Seq<ArenaNode>, q: int, n: ArenaNode)
    requires
        arena_wf(a),
        0 <= q < a.len(),
        n.children == a[q].children,
        n.parent == a[q].parent,
    ensures
        arena_wf(a.update(q, n)),
{
    let b = a.update(q, n);
    assert forall|i: int, k: int|
        0 <= i < b.len() && 0 <= k < b[i].children.len() implies i < #[trigger] b[i].children[k]
        < b.len() by {
        assert(b[i].children[k] == a[i].children[k]);
    }
    assert forall|i: int| 0 <= i < b.len() implies match #[trigger] b[i].parent {
        Some(x) => 0 <= x < i,
        None => true,
    } by {
        assert(b[i].parent == a[i].parent);
    }
}

// ---------------------------------------------------------------------------
// Reading headers, blank lines and text lines

proof fn lemma_trim_around(t: Seq<char>)
    requires
        t.len() > 0,
        t[0] != ' ',
        t.last() != ' ',
    ensures
        trim_start_spaces(seq![' '] + t) == t,
        trim_start_spaces(seq![' '] + t + seq![' ']) == t + seq![' '],
        trim_end_spaces(t + seq![' ']) == t,
        trim_end_spaces(t) == t,
{
    assert((seq![' '] + t).drop_first() =~= t);
    assert((seq![' '] + t)[0] == ' ');
    assert(trim_start_spaces(t) == t);
    assert((seq![' '] + t + seq![' ']).drop_first() =~= t + seq![' ']);
    assert((seq![' '] + t + seq![' '])[0] == ' ');
    assert((t + seq![' '])[0] == t[0]);
    assert(trim_start_spaces(t + seq![' ']) == t + seq![' ']);
    assert((t + seq![' ']).drop_last() =~= t);
    assert((t + seq![' ']).last() == ' ');
    assert(trim_end_spaces(t) == t);
    assert((t + seq![' '])[0] == t[0]);
}

/// Reading plain characters inside an element line keeps them.
proof fn lemma_read_plain_content(st: FileState, x: Seq<char>)
    requires
        st.content_phase,
        !st.author_phase && !st.condition_phase && !st.trigger_phase && !st.except,
        !st.karma_phase,
        forall|i: int| 0 <= i < x.len() ==> plain_char(#[trigger] x[i]),
        st.event_phase ==> separator_free(x),
    ensures
        run_from(st, x) == Some(FileState { save: st.save + x, ..st }),
    decreases x.len(),
{
    if x.len() == 0 {
        assert(st.save + x =~= st.save);
    } else {
        lemma_read_plain_content(st, x.drop_last());
        let s1 = FileState { save: st.save + x.drop_last(), ..st };
        let c = x.last();
        assert(plain_char(x[x.len() - 1]));
        assert(st.event_phase ==> c != ',' && c != ';');
        assert(file_step(s1, c) == Some(FileState { save: s1.save.push(c), ..s1 }));
        assert(s1.save.push(c) =~= st.save + x);
    }
}

/// Reading plain characters inside a header line adds them to the name.
proof fn lemma_read_plain_author(st: FileState, x: Seq<char>)
    requires
        st.author_phase,
        !st.content_phase && !st.condition_phase && !st.trigger_phase && !st.except,
        !st.karma_phase,
        forall|i: int| 0 <= i < x.len() ==> name_char(#[trigger] x[i]),
        st.event_phase ==> separator_free(x),
    ensures
        run_from(st, x) == Some(FileState { author: st.author + x, ..st }),
    decreases x.len(),
{
    if x.len() == 0 {
        assert(st.author + x =~= st.author);
    } else {
        lemma_read_plain_author(st, x.drop_last());
        let s1 = FileState { author: st.author + x.drop_last(), ..st };
        let c = x.last();
        assert(name_char(x[x.len() - 1]));
        assert(is_ascii_char('>') && is_ascii_char('|'));
        assert(st.event_phase ==> c != ',' && c != ';');
        assert(file_step(s1, c) == Some(FileState { author: s1.author.push(c), ..s1 }));
        assert(s1.author.push(c) =~= st.author + x);
    }
}

proof fn lemma_read_hashes(st: FileState, d: nat)
    requires
        !st.content_phase && !st.condition_phase && !st.except,
    ensures
        run_from(st, hashes(d)) == Some(
            FileState {
                header_numbers: st.header_numbers + d,
                author_phase: st.author_phase || d > 0,
                ..st
            },
        ),
    decreases d,
{
    if d > 0 {
        lemma_read_hashes(st, (d - 1) as nat);
        let s1 = FileState {
            header_numbers: st.header_numbers + d - 1,
            author_phase: st.author_phase || d - 1 > 0,
            ..st
        };
        assert(hashes(d).drop_last() =~= hashes((d - 1) as nat));
        assert(file_step(s1, '#') == Some(
            FileState { header_numbers: st.header_numbers + d, author_phase: true, ..st },
        ));
    }
}

/// A header line: the node of depth `d` is made (under the node `p` that
/// the climb from the current node reaches, unless it is the first
/// header) and named.
proof fn lemma_read_header(st: FileState, d: nat, name: Seq<char>)
    requires
        resting(st),
        d >= 1,
        plain_name(name),
    ensures
        run_from(st, hashes(d) + seq![' '] + name + seq!['\n']) == header_line(
            FileState { header_numbers: d as int, author_phase: true, author: seq![' '] + name, ..st },
        ),
        trim_start_spaces(seq![' '] + name) == name,
{
    lemma_trim_around(name);
    lemma_read_hashes(st, d);
    let s1 = FileState { header_numbers: d as int, author_phase: true, ..st };
    assert(is_ascii_char(' '));
    let s2 = FileState { author: seq![' '], ..s1 };
    assert(s1.author.push(' ') =~= seq![' ']);
    assert(file_step(s1, ' ') == Some(s2));
    lemma_run_single(s1, ' ');
    lemma_run_then(st, hashes(d), seq![' '], s1);
    lemma_read_plain_author(s2, name);
    let s3 = FileState { author: seq![' '] + name, ..s1 };
    assert(s2.author + name =~= seq![' '] + name);
    lemma_run_then(st, hashes(d) + seq![' '], name, s2);
    lemma_run_single(s3, '\n');
    lemma_run_then(st, hashes(d) + seq![' '] + name, seq!['\n'], s3);
}

/// A blank line ends any choice mode and changes nothing else.
proof fn lemma_read_blank(st: FileState)
    requires
        resting(st),
    ensures
        run_from(st, seq!['\n']) == Some(FileState { choice_mode: false, ..st }),
{
    assert(is_ascii_char('\n'));
    lemma_run_single(st, '\n');
}

/// A text line adds the text to the current node.
proof fn lemma_read_text_line(st: FileState, t: Seq<char>)
    requires
        resting(st),
        !st.choice_mode,
        plain_text(t),
    ensures
        run_from(st, line_text(DialogTypeModel::Text(t))) == Some(
            FileState {
                arena: with_element(st.arena, st.current, DialogTypeModel::Text(t)),
                ..st
            },
        ),
{
    lemma_trim_around(t);
    let s1 = FileState { content_phase: true, ..st };
    lemma_run_single(st, '-');
    assert(is_ascii_char(' '));
    let s2 = FileState { save: seq![' '], ..s1 };
    assert(s1.save.push(' ') =~= seq![' ']);
    assert(file_step(s1, ' ') == Some(s2));
    lemma_run_single(s1, ' ');
    lemma_run_then(st, seq!['-'], seq![' '], s1);
    assert(seq!['-'] + seq![' '] =~= seq!['-', ' ']);
    lemma_read_plain_content(s2, t);
    let s3 = FileState { save: seq![' '] + t, ..s1 };
    assert(s2.save + t =~= seq![' '] + t);
    lemma_run_then(st, seq!['-', ' '], t, s2);
    assert(file_step(s3, '\n') == Some(text_line(s3)));
    lemma_run_single(s3, '\n');
    lemma_run_then(st, seq!['-', ' '] + t, seq!['\n'], s3);
    assert(text_line(s3).save =~= st.save);
}

// ---------------------------------------------------------------------------
// Reading conditions

/// Inside the condition of a choice line, no karma bound being read.
pub open spec fn in_condition(st: FileState) -> bool {
    &&& st.condition_phase
    &&& !st.content_phase && !st.author_phase && !st.trigger_phase && !st.except
    &&& !st.karma_phase
    &&& st.karma.len() == 0
}

proof fn lemma_read_none(st: FileState, m: Memory)
    requires
        in_condition(st),
        memory_holds(st, m),
    ensures
        run_from(st, seq![' '] + condition_text(None)) == Some(
            match m {
                Memory::Open => FileState { event: st.event + seq!['N', 'o', 'n', 'e'], ..st },
                _ => FileState { event_phase: true, post_colon: true, ..st },
            },
        ),
{
    assert(seq![' '] + condition_text(None) =~= seq![' ', 'N', 'o', 'n', 'e']);
    assert(is_ascii_char(' ') && is_ascii_char('N') && is_ascii_char('o') && is_ascii_char('n')
        && is_ascii_char('e'));
    reveal_with_fuel(run_from, 6);
    assert(st.event.push('N').push('o').push('n').push('e') =~= st.event + seq![
        'N',
        'o',
        'n',
        'e',
    ]);
}

proof fn lemma_nat_digits(n: nat)
    ensures
        all_digits(nat_digits(n)),
        digits_value(nat_digits(n)) == n,
        nat_digits(n).len() > 0,
    decreases n,
{
    if n < 10 {
        let s = nat_digits(n);
        assert(s.drop_last() =~= Seq::<char>::empty());
        assert(s.last() == digit_char(n as int));
        assert(digits_value(s.drop_last()) == 0);
        assert(digit_value(digit_char(n as int)) == n);
        assert(is_digit(digit_char(n as int)));
    } else {
        lemma_nat_digits(n / 10);
        let s = nat_digits(n);
        let d = (n % 10) as int;
        assert(s.drop_last() =~= nat_digits(n / 10));
        assert(s.last() == digit_char(d));
        assert(digit_value(digit_char(d)) == d);
        assert(is_digit(digit_char(d)));
        assert(n == (n / 10) * 10 + n % 10);
    }
}

/// A decimal bound reads back as the same karma value.
pub(crate) proof fn lemma_decimal_reads_back(x: i32)
    ensures
        karma_value(int_to_decimal(x as int)) == Some(x),
        forall|i: int|
            0 <= i < int_to_decimal(x as int).len() ==> is_digit(
                #[trigger] int_to_decimal(x as int)[i],
            ) || int_to_decimal(x as int)[i] == '-',
        int_to_decimal(x as int).len() > 0,
{
    let s = int_to_decimal(x as int);
    if x < 0 {
        let n = (-x) as nat;
        lemma_nat_digits(n);
        assert(s.drop_first() =~= nat_digits(n));
        assert(s[0] == '-');
        assert forall|i: int| 0 <= i < s.len() implies is_digit(#[trigger] s[i]) || s[i]
            == '-' by {
            if i > 0 {
                assert(s[i] == nat_digits(n)[i - 1]);
            }
        }
    } else {
        lemma_nat_digits(x as nat);
        assert(is_digit(s[0]));
    }
    assert(s != seq!['M', 'A', 'X'] && s != seq!['m', 'a', 'x'] && s != seq!['M', 'I', 'N'] && s
        != seq!['m', 'i', 'n']) by {
        assert(s[0] == '-' || is_digit(s[0]));
    }
    reveal_strlit("MAX");
    reveal_strlit("max");
    reveal_strlit("MIN");
    reveal_strlit("min");
    assert("MAX"@ =~= seq!['M', 'A', 'X']);
    assert("max"@ =~= seq!['m', 'a', 'x']);
    assert("MIN"@ =~= seq!['M', 'I', 'N']);
    assert("min"@ =~= seq!['m', 'i', 'n']);
}

proof fn lemma_read_karma_digits(st: FileState, w: Seq<char>)
    requires
        st.condition_phase && st.karma_phase && !st.post_colon,
        !st.content_phase && !st.author_phase && !st.trigger_phase && !st.except,
        forall|i: int| 0 <= i < w.len() ==> is_digit(#[trigger] w[i]) || w[i] == '-',
    ensures
        run_from(st, w) == Some(FileState { karma: st.karma + w, ..st }),
    decreases w.len(),
{
    if w.len() == 0 {
        assert(st.karma + w =~= st.karma);
    } else {
        lemma_read_karma_digits(st, w.drop_last());
        let s1 = FileState { karma: st.karma + w.drop_last(), ..st };
        let c = w.last();
        assert(is_digit(w[w.len() - 1]) || w[w.len() - 1] == '-');
        assert(is_ascii_char(c));
        assert(file_step(s1, c) == Some(FileState { karma: s1.karma.push(c), ..s1 }));
        assert(s1.karma.push(c) =~= st.karma + w);
    }
}

proof fn lemma_read_karma_word(st: FileState)
    requires
        in_condition(st),
    ensures
        run_from(st, seq![' ', 'k', 'a', 'r', 'm', 'a', ':', ' ']) == Some(
            FileState { karma_phase: true, post_colon: false, ..st },
        ),
{
    assert(is_ascii_char(' ') && is_ascii_char('k') && is_ascii_char('a') && is_ascii_char('r')
        && is_ascii_char('m') && is_ascii_char(':'));
    reveal_with_fuel(run_from, 9);
}

/// Reading ` karma: a,b;` sets the karma threshold `(a, b)`.
proof fn lemma_read_karma(st: FileState, a: i32, b: i32)
    requires
        in_condition(st),
        a <= b,
    ensures
        run_from(st, seq![' '] + karma_text(a, b)) == Some(
            FileState {
                condition: ConditionModel { karma_threshold: Some((a, b)), ..st.condition },
                post_colon: false,
                ..st
            },
        ),
{
    let pre = seq![' ', 'k', 'a', 'r', 'm', 'a', ':', ' '];
    let da = int_to_decimal(a as int);
    let db = int_to_decimal(b as int);
    assert(seq![' '] + karma_text(a, b) =~= pre + da + seq![','] + db + seq![';']);
    let s1 = FileState { karma_phase: true, post_colon: false, ..st };
    lemma_read_karma_word(st);
    assert(st.karma =~= Seq::<char>::empty());
    lemma_decimal_reads_back(a);
    lemma_decimal_reads_back(b);
    lemma_read_karma_digits(s1, da);
    let s2 = FileState { karma: da, ..s1 };
    assert(s1.karma + da =~= da);
    lemma_run_then(st, pre, da, s1);
    let s3 = FileState {
        condition: ConditionModel {
            karma_threshold: Some((a, crate::constants::KARMA_MAX)),
            ..st.condition
        },
        karma: Seq::empty(),
        ..s1
    };
    assert(file_step(s2, ',') == Some(s3));
    lemma_run_single(s2, ',');
    lemma_run_then(st, pre + da, seq![','], s2);
    lemma_read_karma_digits(s3, db);
    let s4 = FileState { karma: db, ..s3 };
    assert(s3.karma + db =~= db);
    lemma_run_then(st, pre + da + seq![','], db, s3);
    let s5 = FileState {
        condition: ConditionModel { karma_threshold: Some((a, b)), ..st.condition },
        post_colon: false,
        ..st
    };
    assert(file_step(s4, ';') == Some(s5));
    lemma_run_single(s4, ';');
    lemma_run_then(st, pre + da + seq![','] + db, seq![';'], s4);
}

/// A character that an event list takes as part of a name.
pub open spec fn word_char(c: char) -> bool {
    &&& is_ascii_char(c)
    &&& c != 'k' && c != ':' && c != ' ' && c != '/' && c != '#' && c != ',' && c != ';' && c
        != '\n'
}

pub(crate) proof fn lemma_event_name_chars(e: GameEvent)
    ensures
        game_event_name(e).len() > 0,
        forall|i: int|
            0 <= i < game_event_name(e).len() ==> word_char(#[trigger] game_event_name(e)[i]),
        game_event_named(game_event_name(e)) == Some(e),
{
    crate::dialog::lemma_game_event_name_round_trip(e);
    reveal_strlit("BeatTheGame");
    reveal_strlit("FirstKill");
    reveal_strlit("AreaCleared");
    reveal_strlit("HasCharisma");
    reveal_strlit("HasFriend");
    let s = game_event_name(e);
    match e {
        GameEvent::BeatTheGame => {
            assert(s =~= seq!['B', 'e', 'a', 't', 'T', 'h', 'e', 'G', 'a', 'm', 'e']);
        },
        GameEvent::FirstKill => {
            assert(s =~= seq!['F', 'i', 'r', 's', 't', 'K', 'i', 'l', 'l']);
        },
        GameEvent::AreaCleared => {
            assert(s =~= seq!['A', 'r', 'e', 'a', 'C', 'l', 'e', 'a', 'r', 'e', 'd']);
        },
        GameEvent::HasCharisma => {
            assert(s =~= seq!['H', 'a', 's', 'C', 'h', 'a', 'r', 'i', 's', 'm', 'a']);
        },
        GameEvent::HasFriend => {
            assert(s =~= seq!['H', 'a', 's', 'F', 'r', 'i', 'e', 'n', 'd']);
        },
    }
}

proof fn lemma_read_event_word(st: FileState, w: Seq<char>)
    requires
        st.condition_phase && st.event_phase && !st.post_colon && !st.karma_phase,
        !st.content_phase && !st.author_phase && !st.trigger_phase && !st.except,
        forall|i: int| 0 <= i < w.len() ==> word_char(#[trigger] w[i]),
    ensures
        run_from(st, w) == Some(FileState { event: st.event + w, ..st }),
    decreases w.len(),
{
    if w.len() == 0 {
        assert(st.event + w =~= st.event);
    } else {
        lemma_read_event_word(st, w.drop_last());
        let s1 = FileState { event: st.event + w.drop_last(), ..st };
        let c = w.last();
        assert(word_char(w[w.len() - 1]));
        assert(file_step(s1, c) == Some(FileState { event: s1.event.push(c), ..s1 }));
        assert(s1.event.push(c) =~= st.event + w);
    }
}

/// The events listed so far.
pub open spec fn listed(ev: Option<Seq<GameEvent>>) -> Seq<GameEvent> {
    match ev {
        Some(v) => v,
        None => Seq::empty(),
    }
}

proof fn lemma_read_one_name(st: FileState, e: GameEvent, term: char)
    requires
        st.condition_phase && st.event_phase && !st.post_colon && !st.karma_phase,
        !st.content_phase && !st.author_phase && !st.trigger_phase && !st.except,
        st.event.len() == 0,
        term == ',' || term == ';',
    ensures
        run_from(st, game_event_name(e) + seq![term]) == Some(
            FileState {
                condition: ConditionModel {
                    event: Some(listed(st.condition.event).push(e)),
                    ..st.condition
                },
                event_phase: term != ';',
                ..st
            },
        ),
{
    lemma_event_name_chars(e);
    let w = game_event_name(e);
    lemma_read_event_word(st, w);
    let s1 = FileState { event: st.event + w, ..st };
    assert(st.event + w =~= w);
    assert(st.event =~= Seq::<char>::empty());
    let s2 = FileState {
        condition: ConditionModel { event: Some(listed(st.condition.event).push(e)), ..st.condition },
        event_phase: term != ';',
        ..st
    };
    assert(seq![e] =~= Seq::<GameEvent>::empty().push(e));
    assert(file_step(s1, term) == Some(s2));
    lemma_run_single(s1, term);
    lemma_run_then(st, w, seq![term], s1);
}

proof fn lemma_read_names(st: FileState, evs: Seq<GameEvent>, term: char)
    requires
        st.condition_phase && st.event_phase && !st.post_colon && !st.karma_phase,
        !st.content_phase && !st.author_phase && !st.trigger_phase && !st.except,
        st.event.len() == 0,
        evs.len() > 0,
        term == ',' || term == ';',
    ensures
        run_from(st, names_text(evs) + seq![term]) == Some(
            FileState {
                condition: ConditionModel {
                    event: Some(listed(st.condition.event) + evs),
                    ..st.condition
                },
                event_phase: term != ';',
                ..st
            },
        ),
    decreases evs.len(),
{
    if evs.len() == 1 {
        lemma_read_one_name(st, evs[0], term);
        assert(listed(st.condition.event).push(evs[0]) =~= listed(st.condition.event) + evs);
    } else {
        let pre = evs.drop_last();
        let e = evs.last();
        lemma_read_names(st, pre, ',');
        let s1 = FileState {
            condition: ConditionModel {
                event: Some(listed(st.condition.event) + pre),
                ..st.condition
            },
            event_phase: true,
            ..st
        };
        lemma_read_one_name(s1, e, term);
        assert((listed(st.condition.event) + pre).push(e) =~= listed(st.condition.event) + evs);
        assert(names_text(evs) + seq![term] =~= (names_text(pre) + seq![','])
            + (game_event_name(e) + seq![term]));
        lemma_run_then(st, names_text(pre) + seq![','], game_event_name(e) + seq![term], s1);
    }
}

proof fn lemma_read_event_word_prefix(st: FileState, m: Memory)
    requires
        in_condition(st),
        memory_holds(st, m),
        !(m is Open),
    ensures
        run_from(st, seq![' ', 'e', 'v', 'e', 'n', 't', ':', ' ']) == Some(
            FileState { event_phase: true, post_colon: false, ..st },
        ),
{
    assert(is_ascii_char(' ') && is_ascii_char('e') && is_ascii_char('v') && is_ascii_char('n')
        && is_ascii_char('t') && is_ascii_char(':'));
    reveal_with_fuel(run_from, 9);
}

/// Reading ` event: e1,e2;` sets the event list.
proof fn lemma_read_events(st: FileState, evs: Seq<GameEvent>, m: Memory)
    requires
        in_condition(st),
        memory_holds(st, m),
        !(m is Open),
        st.condition.event is None,
        evs.len() > 0,
    ensures
        run_from(st, seq![' '] + events_text(evs)) == Some(
            FileState {
                condition: ConditionModel { event: Some(evs), ..st.condition },
                event_phase: false,
                post_colon: false,
                ..st
            },
        ),
{
    let pre = seq![' ', 'e', 'v', 'e', 'n', 't', ':', ' '];
    assert(seq![' '] + events_text(evs) =~= pre + (names_text(evs) + seq![';']));
    lemma_read_event_word_prefix(st, m);
    let s1 = FileState { event_phase: true, post_colon: false, ..st };
    lemma_read_names(s1, evs, ';');
    assert(listed(st.condition.event) + evs =~= evs);
    lemma_run_then(st, pre, names_text(evs) + seq![';'], s1);
}

/// What the reader holds as the condition once a condition is read.
pub open spec fn read_condition(c: Option<ConditionModel>) -> ConditionModel {
    match c {
        Some(c) => c,
        None => no_condition(),
    }
}

/// `b` differs from `a` at most in what the reader keeps of conditions.
pub open spec fn only_condition_changed(a: FileState, b: FileState) -> bool {
    b == FileState {
        condition: b.condition,
        event: b.event,
        event_phase: b.event_phase,
        post_colon: b.post_colon,
        ..a
    }
}

proof fn lemma_read_condition(st: FileState, c: Option<ConditionModel>, m: Memory)
    requires
        in_condition(st),
        st.condition == no_condition(),
        memory_holds(st, m),
        condition_ok(c),
        after_condition(m, c) is Some,
    ensures
        match run_from(st, seq![' '] + condition_text(c)) {
            Some(s2) => {
                &&& only_condition_changed(st, s2)
                &&& s2.condition == read_condition(c)
                &&& memory_holds(s2, after_condition(m, c)->0)
            },
            None => false,
        },
{
    match c {
        None => {
            lemma_read_none(st, m);
        },
        Some(cm) => {
            assert(written_events(cm.event) == cm.event);
            match (cm.karma_threshold, cm.event) {
                (Some((a, b)), None) => {
                    lemma_read_karma(st, a, b);
                },
                (None, Some(evs)) => {
                    lemma_read_events(st, evs, m);
                },
                (Some((a, b)), Some(evs)) => {
                    lemma_read_karma(st, a, b);
                    let s1 = FileState {
                        condition: ConditionModel {
                            karma_threshold: Some((a, b)),
                            ..st.condition
                        },
                        post_colon: false,
                        ..st
                    };
                    lemma_read_events(s1, evs, m);
                    assert(seq![' '] + condition_text(c) =~= (seq![' '] + karma_text(a, b)) + (
                    seq![' '] + events_text(evs)));
                    lemma_run_then(st, seq![' '] + karma_text(a, b), seq![' '] + events_text(evs), s1);
                },
                (None, None) => {},
            }
        },
    }
}

/// A choice line adds the choice, with its condition, to the current
/// node.
proof fn lemma_read_choice_line(st: FileState, text: Seq<char>, c: Option<ConditionModel>)
    requires
        resting(st),
        plain_text(text),
        condition_ok(c),
    ensures
        run_from(st, line_text(DialogTypeModel::Choice { text, condition: c })) == Some(
            FileState {
                arena: with_element(
                    st.arena,
                    st.current,
                    DialogTypeModel::Choice { text, condition: c },
                ),
                choice_mode: true,
                ..st
            },
        ),
{
    lemma_trim_around(text);
    let s1 = FileState { content_phase: true, ..st };
    lemma_run_single(st, '-');
    assert(is_ascii_char(' '));
    let s2 = FileState { save: seq![' '], ..s1 };
    assert(s1.save.push(' ') =~= seq![' ']);
    assert(file_step(s1, ' ') == Some(s2));
    lemma_run_single(s1, ' ');
    lemma_run_then(st, seq!['-'], seq![' '], s1);
    assert(seq!['-'] + seq![' '] =~= seq!['-', ' ']);
    lemma_read_plain_content(s2, text);
    let s3 = FileState { save: seq![' '] + text, ..s1 };
    assert(s2.save + text =~= seq![' '] + text);
    lemma_run_then(st, seq!['-', ' '], text, s2);
    let s4 = FileState { save: seq![' '] + text + seq![' '], ..s1 };
    assert(s3.save.push(' ') =~= seq![' '] + text + seq![' ']);
    assert(file_step(s3, ' ') == Some(s4));
    lemma_run_single(s3, ' ');
    lemma_run_then(st, seq!['-', ' '] + text, seq![' '], s3);
    let s5 = FileState {
        save: text + seq![' '],
        choice_mode: true,
        condition_phase: true,
        content_phase: false,
        ..s4
    };
    assert(file_step(s4, '|') == Some(s5));
    lemma_run_single(s4, '|');
    lemma_run_then(st, seq!['-', ' '] + text + seq![' '], seq!['|'], s4);
    assert(after_condition(Memory::Clear, c) is Some);
    lemma_read_condition(s5, c, Memory::Clear);
    let s6 = run_from(s5, seq![' '] + condition_text(c))->0;
    let w = seq!['-', ' '] + text + seq![' '] + seq!['|'];
    lemma_run_then(st, w, seq![' '] + condition_text(c), s5);
    assert(file_step(s6, '\n') == Some(choice_line(s6)));
    lemma_run_single(s6, '\n');
    lemma_run_then(st, w + (seq![' '] + condition_text(c)), seq!['\n'], s6);
    assert(line_text(DialogTypeModel::Choice { text, condition: c }) =~= w + (seq![' ']
        + condition_text(c)) + seq!['\n']);
    assert(choice_line(s6).save =~= st.save);
    assert(choice_line(s6).event =~= st.event);
}

/// Node `cur` of the arena with the elements `ds` appended.
pub open spec fn with_elements(a: Seq<ArenaNode>, cur: int, ds: Seq<DialogTypeModel>) -> Seq<
    ArenaNode,
> {
    a.update(cur, ArenaNode { dialog_type: a[cur].dialog_type + ds, ..a[cur] })
}

/// Element lines add their elements, in order, to the current node.
proof fn lemma_read_lines(st: FileState, ds: Seq<DialogTypeModel>)
    requires
        resting(st),
        !st.choice_mode,
        0 <= st.current < st.arena.len(),
        forall|i: int|
            0 <= i < ds.len() ==> plain_text(text_of(#[trigger] ds[i])) && condition_ok(
                condition_of(ds[i]),
            ),
        forall|i: int, j: int|
            0 <= i < j < ds.len() && (#[trigger] ds[i]) is Choice ==> (#[trigger] ds[j]) is Choice,
    ensures
        run_from(st, lines_text(ds)) == Some(
            FileState {
                arena: with_elements(st.arena, st.current, ds),
                choice_mode: ds.len() > 0 && ds.last() is Choice,
                ..st
            },
        ),
    decreases ds.len(),
{
    if ds.len() == 0 {
        assert(with_elements(st.arena, st.current, ds) =~= st.arena) by {
            assert(st.arena[st.current].dialog_type + ds =~= st.arena[st.current].dialog_type);
        }
        assert(run_from(st, lines_text(ds)) == Some(st));
    } else {
        let pre = ds.drop_last();
        let e = ds.last();
        lemma_read_lines(st, pre);
        let s1 = run_from(st, lines_text(pre))->0;
        assert(plain_text(text_of(ds[ds.len() - 1])));
        assert(condition_ok(condition_of(ds[ds.len() - 1])));
        lemma_run_concat(st, lines_text(pre), line_text(e));
        let cur = st.current;
        match e {
            DialogTypeModel::Text(t) => {
                if pre.len() > 0 {
                    assert(!(ds[ds.len() - 2] is Choice));
                }
                lemma_read_text_line(s1, t);
            },
            DialogTypeModel::Choice { text, condition } => {
                lemma_read_choice_line(s1, text, condition);
            },
        }
        let s2 = run_from(st, lines_text(ds))->0;
        assert(with_element(with_elements(st.arena, cur, pre), cur, e) =~= with_elements(
            st.arena,
            cur,
            ds,
        )) by {
            assert((st.arena[cur].dialog_type + pre).push(e) =~= st.arena[cur].dialog_type + ds);
        }
    }
}

// ---------------------------------------------------------------------------
// Reading the events a node throws

/// A character of the name of a thrown event.
pub open spec fn trigger_char(c: char) -> bool {
    &&& is_ascii_char(c)
    &&& c != ' ' && c != '/' && c != '#' && c != '-' && c != ',' && c != '\n'
}

pub(crate) proof fn lemma_throwable_name_chars(e: ThrowableEvent)
    ensures
        forall|i: int|
            0 <= i < throwable_event_name(e).len() ==> trigger_char(
                #[trigger] throwable_event_name(e)[i],
            ),
        throwable_event_named(throwable_event_name(e)) == Some(e),
{
    crate::dialog::lemma_throwable_event_name_round_trip(e);
    reveal_strlit("FightEvent");
    reveal_strlit("HasFriend");
    let s = throwable_event_name(e);
    match e {
        ThrowableEvent::FightEvent => {
            assert(s =~= seq!['F', 'i', 'g', 'h', 't', 'E', 'v', 'e', 'n', 't']);
        },
        ThrowableEvent::HasFriend => {
            assert(s =~= seq!['H', 'a', 's', 'F', 'r', 'i', 'e', 'n', 'd']);
        },
    }
}

/// Reading the list of thrown events, no condition nor line open.
pub open spec fn in_triggers(st: FileState) -> bool {
    &&& st.trigger_phase
    &&& !st.content_phase && !st.author_phase && !st.condition_phase && !st.except
    &&& !st.event_phase && !st.karma_phase
}

proof fn lemma_read_trigger_word(st: FileState, w: Seq<char>)
    requires
        in_triggers(st),
        forall|i: int| 0 <= i < w.len() ==> trigger_char(#[trigger] w[i]),
    ensures
        run_from(st, w) == Some(FileState { event: st.event + w, ..st }),
    decreases w.len(),
{
    if w.len() == 0 {
        assert(st.event + w =~= st.event);
    } else {
        lemma_read_trigger_word(st, w.drop_last());
        let s1 = FileState { event: st.event + w.drop_last(), ..st };
        let c = w.last();
        assert(trigger_char(w[w.len() - 1]));
        assert(file_step(s1, c) == Some(FileState { event: s1.event.push(c), ..s1 }));
        assert(s1.event.push(c) =~= st.event + w);
    }
}

/// Node `cur` of the arena with the thrown events `evs` appended.
pub open spec fn with_triggers(a: Seq<ArenaNode>, cur: int, evs: Seq<ThrowableEvent>) -> Seq<
    ArenaNode,
> {
    a.update(cur, ArenaNode { trigger_event: a[cur].trigger_event + evs, ..a[cur] })
}

proof fn lemma_read_one_trigger(st: FileState, e: ThrowableEvent, term: char)
    requires
        in_triggers(st),
        st.event.len() == 0,
        0 <= st.current < st.arena.len(),
        term == ',' || term == '\n',
    ensures
        run_from(st, throwable_event_name(e) + seq![term]) == Some(
            FileState {
                arena: with_triggers(st.arena, st.current, seq![e]),
                trigger_phase: term != '\n',
                ..st
            },
        ),
{
    let name = throwable_event_name(e);
    lemma_throwable_name_chars(e);
    lemma_read_trigger_word(st, name);
    let s1 = FileState { event: st.event + name, ..st };
    assert(st.event + name =~= name);
    let a = st.arena;
    let cur = st.current;
    assert(a[cur].trigger_event.push(e) =~= a[cur].trigger_event + seq![e]);
    assert(with_trigger(a, cur, e) =~= with_triggers(a, cur, seq![e]));
    assert(file_step(s1, term) == Some(
        FileState {
            arena: with_trigger(a, cur, e),
            event: Seq::empty(),
            trigger_phase: term != '\n',
            ..s1
        },
    ));
    assert(st.event =~= Seq::<char>::empty());
    lemma_run_single(s1, term);
    lemma_run_then(st, name, seq![term], s1);
}

proof fn lemma_read_trigger_list(st: FileState, evs: Seq<ThrowableEvent>, term: char)
    requires
        in_triggers(st),
        st.event.len() == 0,
        0 <= st.current < st.arena.len(),
        term == ',' || term == '\n',
        evs.len() > 0,
    ensures
        run_from(st, trigger_names(evs) + seq![term]) == Some(
            FileState {
                arena: with_triggers(st.arena, st.current, evs),
                trigger_phase: term != '\n',
                ..st
            },
        ),
    decreases evs.len(),
{
    if evs.len() == 1 {
        lemma_read_one_trigger(st, evs[0], term);
        assert(seq![evs[0]] =~= evs);
    } else {
        let pre = evs.drop_last();
        let e = evs.last();
        lemma_read_trigger_list(st, pre, ',');
        let s1 = FileState {
            arena: with_triggers(st.arena, st.current, pre),
            trigger_phase: true,
            ..st
        };
        lemma_read_one_trigger(s1, e, term);
        let a = st.arena;
        let cur = st.current;
        assert(a[cur].trigger_event + pre + seq![e] =~= a[cur].trigger_event + evs);
        assert(with_triggers(with_triggers(a, cur, pre), cur, seq![e]) =~= with_triggers(
            a,
            cur,
            evs,
        ));
        assert(trigger_names(evs) + seq![term] =~= (trigger_names(pre) + seq![','])
            + (throwable_event_name(e) + seq![term]));
        lemma_run_then(
            st,
            trigger_names(pre) + seq![','],
            throwable_event_name(e) + seq![term],
            s1,
        );
    }
}

/// The events that a node throws are added to the current node.
proof fn lemma_read_triggers(st: FileState, evs: Seq<ThrowableEvent>)
    requires
        resting(st),
        0 <= st.current < st.arena.len(),
    ensures
        run_from(st, triggers_text(evs)) == Some(
            FileState { arena: with_triggers(st.arena, st.current, evs), ..st },
        ),
{
    let a = st.arena;
    let cur = st.current;
    if evs.len() == 0 {
        assert(a[cur].trigger_event + evs =~= a[cur].trigger_event);
        assert(with_triggers(a, cur, evs) =~= a);
        assert(run_from(st, triggers_text(evs)) == Some(st));
    } else {
        let s2 = FileState { content_phase: true, ..st };
        let s3 = FileState { trigger_phase: true, ..st };
        assert(file_step(st, '-') == Some(s2));
        assert(file_step(s2, '>') == Some(s3));
        assert(is_ascii_char(' '));
        assert(file_step(s3, ' ') == Some(s3));
        lemma_run_single(st, '-');
        lemma_run_single(s2, '>');
        lemma_run_single(s3, ' ');
        lemma_run_then(st, seq!['-'], seq!['>'], s2);
        assert(seq!['-'] + seq!['>'] =~= seq!['-', '>']);
        lemma_run_then(st, seq!['-', '>'], seq![' '], s3);
        assert(seq!['-', '>'] + seq![' '] =~= seq!['-', '>', ' ']);
        lemma_read_trigger_list(s3, evs, '\n');
        assert(triggers_text(evs) =~= seq!['-', '>', ' '] + (trigger_names(evs) + seq!['\n']));
        lemma_run_then(st, seq!['-', '>', ' '], trigger_names(evs) + seq!['\n'], s3);
    }
}

/// After the first `k` children of the node `q` (whose own lines are read
/// in `st0`) are read into `s`.
pub open spec fn kids_done(
    st0: FileState,
    s: FileState,
    t: NodeModel,
    d: nat,
    q: int,
    k: int,
) -> bool {
    &&& resting(s)
    &&& arena_wf(s.arena)
    &&& st0.arena.len() <= s.arena.len()
    &&& 0 <= q < st0.arena.len()
    &&& s.arena[q] == ArenaNode { children: s.arena[q].children, ..st0.arena[q] }
    &&& s.arena[q].children.len() == k
    &&& forall|i: int| 0 <= i < st0.arena.len() && i != q ==> s.arena[i] == st0.arena[i]
    &&& forall|j: int|
        0 <= j < k ==> q < #[trigger] s.arena[q].children[j] < s.arena.len() && laid_out(
            s.arena,
            s.arena[q].children[j],
            t.children[j],
        )
    &&& s.last_header_numbers >= d
    &&& 0 <= s.current < s.arena.len()
    &&& climb(s.arena, s.current, s.last_header_numbers - d) == Some(q)
}

/// After the node `t` of depth `d` is read from `st` into `s`, as a new
/// last child of `p`.
pub open spec fn node_done(
    st: FileState,
    s: FileState,
    t: NodeModel,
    d: nat,
    p: int,
) -> bool {
    let n = st.arena.len() as int;
    &&& resting(s)
    &&& arena_wf(s.arena)
    &&& n < s.arena.len()
    &&& s.arena[p] == ArenaNode { children: st.arena[p].children.push(n), ..st.arena[p] }
    &&& forall|i: int| 0 <= i < n && i != p ==> s.arena[i] == st.arena[i]
    &&& laid_out(s.arena, n, t)
    &&& s.arena[n].parent == Some(p)
    &&& s.last_header_numbers >= d
    &&& 0 <= s.current < s.arena.len()
    &&& climb(s.arena, s.current, s.last_header_numbers - d) == Some(n)
}

proof fn lemma_read_children(
    st0: FileState,
    t: NodeModel,
    d: nat,
    q: int,
    k: int,
)
    requires
        kids_done(st0, st0, t, d, q, 0),
        tree_ok(t),
        d >= 1,
        0 <= k <= t.children.len(),
    ensures
        match run_from(st0, children_text(t, d, k)) {
            Some(s) => kids_done(st0, s, t, d, q, k),
            None => false,
        },
    decreases t, 0int, k,
{
    if k == 0 {
        assert(children_text(t, d, k) =~= Seq::<char>::empty());
        assert(run_from(st0, Seq::<char>::empty()) == Some(st0));
    } else {
        lemma_read_children(st0, t, d, q, k - 1);
        let s1 = run_from(st0, children_text(t, d, k - 1))->0;
        let child = t.children[k - 1];
        lemma_read_blank(s1);
        let s1b = FileState { choice_mode: false, ..s1 };
        lemma_run_then(st0, children_text(t, d, k - 1), seq!['\n'], s1);
        assert(tree_ok(child));
        lemma_read_node(s1b, child, d + 1, q);
        let s2 = run_from(s1b, file_text(child, d + 1))->0;
        lemma_run_then(
            st0,
            children_text(t, d, k - 1) + seq!['\n'],
            file_text(child, d + 1),
            s1b,
        );
        let n1 = s1.arena.len() as int;
        assert forall|j: int| 0 <= j < k implies q < #[trigger] s2.arena[q].children[j]
            < s2.arena.len() && laid_out(s2.arena, s2.arena[q].children[j], t.children[j]) by {
            if j < k - 1 {
                let c = s1.arena[q].children[j];
                assert(s2.arena[q].children[j] == c);
                lemma_laid_out_frame(s1.arena, s2.arena, c, t.children[j]);
            }
        }
        lemma_climb_step(s2.arena, s2.current, s2.last_header_numbers - d - 1, n1, q);
        assert(s2.last_header_numbers - d - 1 + 1 == s2.last_header_numbers - d);
    }
}

proof fn lemma_read_node(st: FileState, t: NodeModel, d: nat, p: int)
    requires
        resting(st),
        arena_wf(st.arena),
        0 <= st.current < st.arena.len(),
        d >= 2,
        st.last_header_numbers >= d - 1,
        climb(st.arena, st.current, st.last_header_numbers - d + 1) == Some(p),
        tree_ok(t),
    ensures
        match run_from(st, file_text(t, d)) {
            Some(s) => node_done(st, s, t, d, p),
            None => false,
        },
    decreases t, 1int, 0int,
{
    crate::arena::lemma_climb_in_range(st.arena, st.current, st.last_header_numbers - d + 1);
    let name = speaker_name(t);
    let a = st.arena;
    let n = a.len() as int;
    let head = hashes(d) + seq![' '] + name + seq!['\n'];
    lemma_read_header(st, d, name);
    let s1 = FileState {
        arena: with_character(with_child(a, p), n, name),
        current: n,
        last_header_numbers: d as int,
        ..st
    };
    assert(st.author =~= Seq::<char>::empty());
    let sh = FileState {
        header_numbers: d as int,
        author_phase: true,
        author: seq![' '] + name,
        ..st
    };
    assert(climb(sh.arena, sh.current, sh.last_header_numbers - sh.header_numbers + 1) == Some(p));
    assert(header_line(sh) == Some(s1));
    assert(run_from(st, head) == Some(s1));
    lemma_wf_with_child(a, p);
    lemma_wf_with_fields(
        with_child(a, p),
        n,
        ArenaNode { character: Some((0u32, name)), ..with_child(a, p)[n] },
    );
    lemma_read_blank(s1);
    let s1b = FileState { choice_mode: false, ..s1 };
    lemma_run_then(st, head, seq!['\n'], s1);
    lemma_read_lines(s1b, t.dialog_type);
    let s2 = run_from(s1b, lines_text(t.dialog_type))->0;
    lemma_run_then(st, head + seq!['\n'], lines_text(t.dialog_type), s1b);
    lemma_wf_with_fields(
        s1.arena,
        n,
        ArenaNode {
            dialog_type: s1.arena[n].dialog_type + t.dialog_type,
            ..s1.arena[n]
        },
    );
    lemma_read_triggers(s2, t.trigger_event);
    let s2t = run_from(s2, triggers_text(t.trigger_event))->0;
    lemma_run_then(
        st,
        head + seq!['\n'] + lines_text(t.dialog_type),
        triggers_text(t.trigger_event),
        s2,
    );
    lemma_wf_with_fields(
        s2.arena,
        n,
        ArenaNode {
            trigger_event: s2.arena[n].trigger_event + t.trigger_event,
            ..s2.arena[n]
        },
    );
    assert(kids_done(s2t, s2t, t, d, n, 0));
    lemma_read_children(s2t, t, d, n, t.children.len() as int);
    let s3 = run_from(s2t, children_text(t, d, t.children.len() as int))->0;
    let pre = head + seq!['\n'] + lines_text(t.dialog_type) + triggers_text(t.trigger_event);
    lemma_run_then(st, pre, children_text(t, d, t.children.len() as int), s2t);
    assert(file_text(t, d) =~= pre + children_text(t, d, t.children.len() as int));
    assert(s2t.arena[n].dialog_type =~= t.dialog_type);
    assert(s2t.arena[n].trigger_event =~= t.trigger_event);
    assert(node_done(st, s3, t, d, p));
}

/// Reading back what `print_file` writes (the file form `file_text`) gives
/// the tree back, for every tree that the file form carries: named
/// speakers, plain texts, conditions that ask something and no text after
/// a choice (see `tree_ok`); the events each node throws come back too.
pub proof fn lemma_file_form_round_trip(t: NodeModel)
    requires
        tree_ok(t),
    ensures
        parse_file(file_text(t, 1)) == Some(t),
{
    let st = file_start();
    let name = speaker_name(t);
    let head = hashes(1) + seq![' '] + name + seq!['\n'];
    assert(st.condition == no_condition());
    lemma_read_header(st, 1, name);
    let s1 = FileState {
        arena: with_character(st.arena, 0, name),
        last_header_numbers: 1,
        ..st
    };
    let sh = FileState { header_numbers: 1, author_phase: true, author: seq![' '] + name, ..st };
    assert(header_line(sh) == Some(s1));
    lemma_wf_with_fields(st.arena, 0, ArenaNode { character: Some((0u32, name)), ..st.arena[0] });
    lemma_read_blank(s1);
    let s1b = FileState { choice_mode: false, ..s1 };
    lemma_run_then(st, head, seq!['\n'], s1);
    lemma_read_lines(s1b, t.dialog_type);
    let s2 = run_from(s1b, lines_text(t.dialog_type))->0;
    lemma_run_then(st, head + seq!['\n'], lines_text(t.dialog_type), s1b);
    lemma_wf_with_fields(
        s1.arena,
        0,
        ArenaNode { dialog_type: s1.arena[0].dialog_type + t.dialog_type, ..s1.arena[0] },
    );
    lemma_read_triggers(s2, t.trigger_event);
    let s2t = run_from(s2, triggers_text(t.trigger_event))->0;
    lemma_run_then(
        st,
        head + seq!['\n'] + lines_text(t.dialog_type),
        triggers_text(t.trigger_event),
        s2,
    );
    lemma_wf_with_fields(
        s2.arena,
        0,
        ArenaNode { trigger_event: s2.arena[0].trigger_event + t.trigger_event, ..s2.arena[0] },
    );
    assert(climb(s2t.arena, 0, 0) == Some(0int));
    assert(kids_done(s2t, s2t, t, 1, 0, 0));
    lemma_read_children(s2t, t, 1, 0, t.children.len() as int);
    let s3 = run_from(s2t, children_text(t, 1, t.children.len() as int))->0;
    let pre = head + seq!['\n'] + lines_text(t.dialog_type) + triggers_text(t.trigger_event);
    lemma_run_then(st, pre, children_text(t, 1, t.children.len() as int), s2t);
    let w = file_text(t, 1);
    assert(w =~= pre + children_text(t, 1, t.children.len() as int));
    assert(s2t.arena[0].dialog_type =~= t.dialog_type);
    assert(s2t.arena[0].trigger_event =~= t.trigger_event);
    assert(laid_out(s3.arena, 0, t));
    lemma_laid_out_tree(s3.arena, 0, t);
    lemma_file_run_is_run_from(w, w.len() as int);
    assert(w.take(w.len() as int) =~= w);
}

} // verus!

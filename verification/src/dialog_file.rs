//! Reading a dialog tree from its file form, one character at a time.
//!
//! ```text
//! # Author 1
//!
//! - first text
//! - second text
//!
//! -> FightEvent
//!
//! ## Author 2
//!
//! - first choice | karma: -50,0;
//! - second choice | event: HasFriend;
//! - third choice | None
//! ```
//!
//! A line starting with `#` names the speaker of a new node; the number of
//! `#` gives its depth. A line starting with `-` is a text, or a choice
//! when it holds `|` followed by its condition (`k:`/`karma:` bounds,
//! `e:`/`event:` names, each ended by `;`). `->` lists the events that the
//! node throws. `/` makes the next character plain text.

use vstd::prelude::*;

use crate::arena::{
    add_child, add_element, add_trigger, arena_view, arena_wf, blank, build_tree, climb,
    lemma_climb_in_range, new_arena, parent_of, set_character, to_tree, with_character,
    with_child, with_element, with_trigger, ArenaEntry, ArenaNode,
};
use crate::constants::{KARMA_MAX, KARMA_MIN};
use crate::dialog::{
    game_event_named, throwable_event_named, ConditionModel, DialogCondition, DialogNode,
    DialogType, DialogTypeModel, GameEvent, NodeModel, ThrowableEvent,
};
use crate::text::{
    alphanumeric, char_is_alphanumeric, char_is_ascii, chars_to_string, is_ascii_char,
    parse_i32, parse_i32_chars, str_to_chars, trim_end, trim_end_spaces, trim_start,
    trim_start_spaces,
};

verus! {

/// Everything the reader remembers between two characters.
pub struct FileState {
    pub arena: Seq<ArenaNode>,
    pub current: int,
    pub author: Seq<char>,
    pub save: Seq<char>,
    pub condition: ConditionModel,
    pub karma: Seq<char>,
    pub event: Seq<char>,
    /// The element being read is a choice (else a text).
    pub choice_mode: bool,
    /// The previous character was the escape `/`.
    pub except: bool,
    pub header_numbers: int,
    pub last_header_numbers: int,
    pub author_phase: bool,
    pub content_phase: bool,
    pub condition_phase: bool,
    pub karma_phase: bool,
    pub event_phase: bool,
    pub post_colon: bool,
    pub trigger_phase: bool,
}

/// The condition that asks nothing.
pub open spec fn no_condition() -> ConditionModel {
    ConditionModel { karma_threshold: None, event: None }
}

/// The state before the first character: a root and nothing else.
pub open spec fn file_start() -> FileState {
    FileState {
        arena: seq![blank(None)],
        current: 0,
        author: Seq::empty(),
        save: Seq::empty(),
        condition: no_condition(),
        karma: Seq::empty(),
        event: Seq::empty(),
        choice_mode: false,
        except: false,
        header_numbers: 0,
        last_header_numbers: 0,
        author_phase: false,
        content_phase: false,
        condition_phase: false,
        karma_phase: false,
        event_phase: false,
        post_colon: false,
        trigger_phase: false,
    }
}

/// A karma bound: `MAX`/`max`, `MIN`/`min` or a decimal `i32`.
pub open spec fn karma_value(k: Seq<char>) -> Option<i32> {
    if k == "MAX"@ || k == "max"@ {
        Some(KARMA_MAX)
    } else if k == "MIN"@ || k == "min"@ {
        Some(KARMA_MIN)
    } else {
        parse_i32(k)
    }
}

/// End of a header line: the speaker's node is made (for every header but
/// the first, as a child of the node `last - header + 1` levels up) and
/// named. `None` when a level up does not exist.
pub open spec fn header_line(st: FileState) -> Option<FileState> {
    let author = trim_start_spaces(st.author);
    let placed: Option<(Seq<ArenaNode>, int)> = if st.last_header_numbers != 0 {
        match climb(
            st.arena,
            st.current,
            st.last_header_numbers - st.header_numbers + 1,
        ) {
            Some(p) => Some((with_child(st.arena, p), st.arena.len() as int)),
            None => None,
        }
    } else {
        Some((st.arena, st.current))
    };
    match placed {
        Some((arena, current)) => Some(
            FileState {
                arena: with_character(arena, current, author),
                current,
                author: Seq::empty(),
                last_header_numbers: st.header_numbers,
                header_numbers: 0,
                except: false,
                author_phase: false,
                ..st
            },
        ),
        None => None,
    }
}

/// End of a choice line: the choice, with its condition when the condition
/// asks something, is added to the current node, and whatever was begun of
/// an event list ends with the line.
pub open spec fn choice_line(st: FileState) -> FileState {
    let text = trim_end_spaces(trim_start_spaces(st.save));
    let condition = if st.condition.karma_threshold is Some || st.condition.event is Some {
        Some(st.condition)
    } else {
        None
    };
    FileState {
        arena: with_element(
            st.arena,
            st.current,
            DialogTypeModel::Choice { text, condition },
        ),
        condition_phase: false,
        save: Seq::empty(),
        condition: no_condition(),
        event: Seq::empty(),
        event_phase: false,
        post_colon: false,
        ..st
    }
}

/// End of a text line: the text is added to the current node.
pub open spec fn text_line(st: FileState) -> FileState {
    let text = trim_end_spaces(trim_start_spaces(st.save));
    FileState {
        arena: with_element(st.arena, st.current, DialogTypeModel::Text(text)),
        save: Seq::empty(),
        content_phase: false,
        ..st
    }
}

/// A plain character (ASCII or alphanumeric) that ends nothing; blanks
/// between thrown events are skipped.
pub open spec fn read_char(st: FileState, c: char) -> FileState {
    if c == '/' {
        FileState { except: true, ..st }
    } else if st.condition_phase {
        if c == 'k' {
            FileState { karma_phase: true, post_colon: true, ..st }
        } else if c == 'e' && !st.event_phase {
            FileState { event_phase: true, post_colon: true, ..st }
        } else if c == ':' && (st.event_phase || st.karma_phase) {
            FileState { post_colon: false, ..st }
        } else if st.karma_phase && !st.post_colon && c != ' ' {
            FileState { karma: st.karma.push(c), ..st }
        } else if st.event_phase && c != ' ' && !st.post_colon {
            FileState { event: st.event.push(c), ..st }
        } else {
            st
        }
    } else if st.trigger_phase {
        if c != ' ' {
            FileState { event: st.event.push(c), ..st }
        } else {
            st
        }
    } else if c == '\n' && !st.except {
        FileState { choice_mode: false, author_phase: false, content_phase: false, ..st }
    } else if st.author_phase && c != '#' {
        FileState { author: st.author.push(c), ..st }
    } else {
        FileState { save: st.save.push(c), except: false, ..st }
    }
}

/// The effect of one character; `None` where reading stops on an error
/// (two phases at once, a bad karma bound or event name, a header too deep).
pub open spec fn file_step(st: FileState, c: char) -> Option<FileState> {
    if (st.content_phase && st.author_phase) || (st.content_phase && st.condition_phase) || (
    st.author_phase && st.condition_phase) {
        None
    } else if c == '#' && !st.except {
        Some(FileState { header_numbers: st.header_numbers + 1, author_phase: true, ..st })
    } else if c == '-' && !st.condition_phase && !st.except {
        Some(FileState { content_phase: true, ..st })
    } else if c == '>' && st.content_phase && !st.except {
        Some(FileState { content_phase: false, trigger_phase: true, ..st })
    } else if c == '|' && st.content_phase && !st.except {
        Some(
            FileState {
                save: trim_start_spaces(st.save),
                choice_mode: true,
                condition_phase: true,
                content_phase: false,
                ..st
            },
        )
    } else if c == ',' && st.karma_phase && st.condition_phase {
        match karma_value(st.karma) {
            Some(k) => Some(
                FileState {
                    condition: ConditionModel {
                        karma_threshold: Some((k, KARMA_MAX)),
                        ..st.condition
                    },
                    karma: Seq::empty(),
                    ..st
                },
            ),
            None => None,
        }
    } else if c == '\n' && st.author_phase {
        header_line(st)
    } else if c == ';' && st.karma_phase {
        match karma_value(st.karma) {
            Some(k) => Some(
                FileState {
                    condition: ConditionModel {
                        karma_threshold: match st.condition.karma_threshold {
                            Some((x, _)) => if x <= k {
                                Some((x, k))
                            } else {
                                Some((k, x))
                            },
                            None => None,
                        },
                        ..st.condition
                    },
                    karma: Seq::empty(),
                    karma_phase: false,
                    ..st
                },
            ),
            None => None,
        }
    } else if (c == ';' || c == ',') && st.event_phase {
        match game_event_named(st.event) {
            Some(e) => Some(
                FileState {
                    condition: ConditionModel {
                        event: Some(
                            match st.condition.event {
                                Some(v) => v.push(e),
                                None => seq![e],
                            },
                        ),
                        ..st.condition
                    },
                    event: Seq::empty(),
                    event_phase: c != ';',
                    ..st
                },
            ),
            None => None,
        }
    } else if c == '\n' && st.condition_phase && st.choice_mode {
        Some(choice_line(st))
    } else if c == '\n' && st.content_phase && st.save.len() > 0 && !st.choice_mode && !st.except {
        Some(text_line(st))
    } else if (c == ',' || c == '\n') && st.trigger_phase {
        match throwable_event_named(st.event) {
            Some(e) => Some(
                FileState {
                    arena: with_trigger(st.arena, st.current, e),
                    event: Seq::empty(),
                    trigger_phase: c != '\n',
                    ..st
                },
            ),
            None => None,
        }
    } else if is_ascii_char(c) || alphanumeric(c) {
        Some(read_char(st, c))
    } else {
        Some(st)
    }
}

/// The state after the first `k` characters of `s`.
pub open spec fn file_run(s: Seq<char>, k: int) -> Option<FileState>
    decreases k,
{
    if k <= 0 {
        Some(file_start())
    } else {
        match file_run(s, k - 1) {
            Some(st) => file_step(st, s[k - 1]),
            None => None,
        }
    }
}

/// The tree that the file form `s` describes; `None` when reading stops on
/// an error.
pub open spec fn parse_file(s: Seq<char>) -> Option<NodeModel> {
    match file_run(s, s.len() as int) {
        Some(st) => Some(to_tree(st.arena, 0)),
        None => None,
    }
}

/// What the reader keeps true: a well-formed arena whose size and header
/// counts are bounded by the number `k` of characters read.
pub open spec fn file_inv(st: FileState, k: int) -> bool {
    &&& arena_wf(st.arena)
    &&& 1 <= st.arena.len() <= k + 1
    &&& 0 <= st.current < st.arena.len()
    &&& 0 <= st.header_numbers <= k
    &&& 0 <= st.last_header_numbers <= k
    &&& st.author_phase ==> st.header_numbers >= 1
}

/// The reader's state, in values the program holds.
struct FileReader {
    arena: Vec<ArenaEntry>,
    current: usize,
    author: Vec<char>,
    save: Vec<char>,
    condition: DialogCondition,
    karma: Vec<char>,
    event: Vec<char>,
    choice_mode: bool,
    except: bool,
    header_numbers: i64,
    last_header_numbers: i64,
    author_phase: bool,
    content_phase: bool,
    condition_phase: bool,
    karma_phase: bool,
    event_phase: bool,
    post_colon: bool,
    trigger_phase: bool,
}

impl View for FileReader {
    type V = FileState;

    closed spec fn view(&self) -> FileState {
        FileState {
            arena: arena_view(self.arena@),
            current: self.current as int,
            author: self.author@,
            save: self.save@,
            condition: self.condition@,
            karma: self.karma@,
            event: self.event@,
            choice_mode: self.choice_mode,
            except: self.except,
            header_numbers: self.header_numbers as int,
            last_header_numbers: self.last_header_numbers as int,
            author_phase: self.author_phase,
            content_phase: self.content_phase,
            condition_phase: self.condition_phase,
            karma_phase: self.karma_phase,
            event_phase: self.event_phase,
            post_colon: self.post_colon,
            trigger_phase: self.trigger_phase,
        }
    }
}

fn karma_bound(k: &Vec<char>) -> (r: Option<i32>)
    ensures
        r == karma_value(k@),
{
    let max_upper = str_to_chars("MAX");
    let max_lower = str_to_chars("max");
    let min_upper = str_to_chars("MIN");
    let min_lower = str_to_chars("min");
    if crate::dialog::chars_eq(k, &max_upper) || crate::dialog::chars_eq(k, &max_lower) {
        Some(KARMA_MAX)
    } else if crate::dialog::chars_eq(k, &min_upper) || crate::dialog::chars_eq(k, &min_lower) {
        Some(KARMA_MIN)
    } else {
        parse_i32_chars(k)
    }
}

impl FileReader {
    fn new() -> (r: FileReader)
        ensures
            r@ == file_start(),
            file_inv(r@, 0),
    {
        let r = FileReader {
            arena: new_arena(),
            current: 0,
            author: Vec::new(),
            save: Vec::new(),
            condition: DialogCondition::new(),
            karma: Vec::new(),
            event: Vec::new(),
            choice_mode: false,
            except: false,
            header_numbers: 0,
            last_header_numbers: 0,
            author_phase: false,
            content_phase: false,
            condition_phase: false,
            karma_phase: false,
            event_phase: false,
            post_colon: false,
            trigger_phase: false,
        };
        assert(r@.author =~= Seq::<char>::empty());
        assert(r@ =~= file_start());
        r
    }

    fn end_header_line(&mut self) -> (ok: bool)
        requires
            arena_wf(old(self)@.arena),
            0 <= old(self)@.current < old(self)@.arena.len() < usize::MAX,
            1 <= old(self).header_numbers <= i32::MAX,
            0 <= old(self).last_header_numbers <= i32::MAX,
        ensures
            ok == header_line(old(self)@) is Some,
            ok ==> final(self)@ == header_line(old(self)@)->0,
            ok ==> arena_wf(final(self)@.arena),
            ok ==> final(self)@.arena.len() <= old(self)@.arena.len() + 1,
            ok ==> 0 <= final(self)@.current < final(self)@.arena.len(),
    {
        let ghost st = self@;
        let author = trim_start(&self.author);
        if self.last_header_numbers != 0 {
            let limit: i64 = self.last_header_numbers - self.header_numbers + 1;
            let mut step: i64 = 0;
            let mut node: usize = self.current;
            proof {
                lemma_climb_in_range(st.arena, st.current, limit as int);
            }
            while step < limit
                invariant
                    0 <= step,
                    limit > 0 ==> step <= limit,
                    limit <= 0 ==> step == 0,
                    limit == st.last_header_numbers - st.header_numbers + 1,
                    st.last_header_numbers != 0,
                    self@ == st,
                    arena_wf(st.arena),
                    node < self.arena.len(),
                    climb(st.arena, st.current, limit as int) == climb(
                        st.arena,
                        node as int,
                        limit - step,
                    ),
                decreases limit - step,
            {
                match parent_of(&self.arena, node) {
                    Some(p) => {
                        node = p;
                    },
                    None => {
                        assert(climb(st.arena, node as int, limit - step) is None);
                        assert(header_line(st) is None);
                        return false;
                    },
                }
                step = step + 1;
            }
            let child = add_child(&mut self.arena, node);
            self.current = child;
        }
        let name = chars_to_string(&author);
        set_character(&mut self.arena, self.current, name);
        self.author = Vec::new();
        self.last_header_numbers = self.header_numbers;
        self.header_numbers = 0;
        self.except = false;
        self.author_phase = false;
        assert(self@.author =~= Seq::<char>::empty());
        assert(self@ =~= header_line(st)->0);
        true
    }

    fn end_choice_line(&mut self)
        requires
            arena_wf(old(self)@.arena),
            0 <= old(self)@.current < old(self)@.arena.len(),
        ensures
            final(self)@ == choice_line(old(self)@),
            arena_wf(final(self)@.arena),
            final(self)@.arena.len() == old(self)@.arena.len(),
    {
        let ghost st = self@;
        let t0 = trim_start(&self.save);
        let text = trim_end(&t0);
        let condition = if self.condition.karma_threshold.is_some()
            || self.condition.event.is_some() {
            let mut taken = DialogCondition::new();
            std::mem::swap(&mut taken, &mut self.condition);
            Some(taken)
        } else {
            self.condition = DialogCondition::new();
            None
        };
        let d = DialogType::Choice { text: chars_to_string(&text), condition };
        add_element(&mut self.arena, self.current, d);
        self.condition_phase = false;
        self.save = Vec::new();
        self.event = Vec::new();
        self.event_phase = false;
        self.post_colon = false;
        assert(self@.save =~= Seq::<char>::empty());
        assert(self@.event =~= Seq::<char>::empty());
        assert(self@ =~= choice_line(st));
    }

    fn end_text_line(&mut self)
        requires
            arena_wf(old(self)@.arena),
            0 <= old(self)@.current < old(self)@.arena.len(),
        ensures
            final(self)@ == text_line(old(self)@),
            arena_wf(final(self)@.arena),
            final(self)@.arena.len() == old(self)@.arena.len(),
    {
        let ghost st = self@;
        let t0 = trim_start(&self.save);
        let text = trim_end(&t0);
        add_element(&mut self.arena, self.current, DialogType::Text(chars_to_string(&text)));
        self.save = Vec::new();
        self.content_phase = false;
        assert(self@.save =~= Seq::<char>::empty());
        assert(self@ =~= text_line(st));
    }

    fn plain_char(&mut self, c: char)
        ensures
            final(self)@ == read_char(old(self)@, c),
            final(self).arena@ == old(self).arena@,
            final(self).current == old(self).current,
            final(self).header_numbers == old(self).header_numbers,
            final(self).last_header_numbers == old(self).last_header_numbers,
            final(self).author_phase ==> old(self).author_phase,
    {
        let ghost st = self@;
        if c == '/' {
            self.except = true;
        } else if self.condition_phase {
            if c == 'k' {
                self.karma_phase = true;
                self.post_colon = true;
            } else if c == 'e' && !self.event_phase {
                self.event_phase = true;
                self.post_colon = true;
            } else if c == ':' && (self.event_phase || self.karma_phase) {
                self.post_colon = false;
            } else if self.karma_phase && !self.post_colon && c != ' ' {
                self.karma.push(c);
            } else if self.event_phase && c != ' ' && !self.post_colon {
                self.event.push(c);
            }
        } else if self.trigger_phase {
            if c != ' ' {
                self.event.push(c);
            }
        } else if c == '\n' && !self.except {
            self.choice_mode = false;
            self.author_phase = false;
            self.content_phase = false;
        } else if self.author_phase && c != '#' {
            self.author.push(c);
        } else {
            self.save.push(c);
            self.except = false;
        }
        assert(self@ =~= read_char(st, c));
    }

    fn step(&mut self, c: char, k: Ghost<int>) -> (ok: bool)
        requires
            file_inv(old(self)@, k@),
            0 <= k@ < i32::MAX,
        ensures
            ok == file_step(old(self)@, c) is Some,
            ok ==> final(self)@ == file_step(old(self)@, c)->0,
            ok ==> file_inv(final(self)@, k@ + 1),
    {
        let ghost st = self@;
        if (self.content_phase && self.author_phase) || (self.content_phase
            && self.condition_phase) || (self.author_phase && self.condition_phase) {
            return false;
        }
        if c == '#' && !self.except {
            self.header_numbers = self.header_numbers + 1;
            self.author_phase = true;
        } else if c == '-' && !self.condition_phase && !self.except {
            self.content_phase = true;
        } else if c == '>' && self.content_phase && !self.except {
            self.content_phase = false;
            self.trigger_phase = true;
        } else if c == '|' && self.content_phase && !self.except {
            self.save = trim_start(&self.save);
            self.choice_mode = true;
            self.condition_phase = true;
            self.content_phase = false;
        } else if c == ',' && self.karma_phase && self.condition_phase {
            match karma_bound(&self.karma) {
                Some(kv) => {
                    self.condition.karma_threshold = Some((kv, KARMA_MAX));
                    self.karma = Vec::new();
                    assert(self@.karma =~= Seq::<char>::empty());
                },
                None => {
                    return false;
                },
            }
        } else if c == '\n' && self.author_phase {
            return self.end_header_line();
        } else if c == ';' && self.karma_phase {
            match karma_bound(&self.karma) {
                Some(kv) => {
                    self.condition.karma_threshold = match self.condition.karma_threshold {
                        Some((x, _)) => if x <= kv {
                            Some((x, kv))
                        } else {
                            Some((kv, x))
                        },
                        None => None,
                    };
                    self.karma = Vec::new();
                    self.karma_phase = false;
                    assert(self@.karma =~= Seq::<char>::empty());
                },
                None => {
                    return false;
                },
            }
        } else if (c == ';' || c == ',') && self.event_phase {
            match GameEvent::from_name(&self.event) {
                Some(e) => {
                    let mut evs: Vec<GameEvent> = match self.condition.event.take() {
                        Some(v) => v,
                        None => Vec::new(),
                    };
                    evs.push(e);
                    self.condition.event = Some(evs);
                    self.event = Vec::new();
                    self.event_phase = c != ';';
                    assert(self@.event =~= Seq::<char>::empty());
                },
                None => {
                    return false;
                },
            }
        } else if c == '\n' && self.condition_phase && self.choice_mode {
            self.end_choice_line();
        } else if c == '\n' && self.content_phase && self.save.len() > 0 && !self.choice_mode
            && !self.except {
            self.end_text_line();
        } else if (c == ',' || c == '\n') && self.trigger_phase {
            match ThrowableEvent::from_name(&self.event) {
                Some(e) => {
                    add_trigger(&mut self.arena, self.current, e);
                    self.event = Vec::new();
                    self.trigger_phase = c != '\n';
                    assert(self@.event =~= Seq::<char>::empty());
                },
                None => {
                    return false;
                },
            }
        } else if char_is_ascii(c) || char_is_alphanumeric(c) {
            self.plain_char(c);
        }
        assert(self@ =~= file_step(st, c)->0);
        true
    }
}

/// The tree that the file form `s` describes, or `None` where reading it
/// stops on an error: two phases at once, a karma bound that is neither
/// `MAX`, `MIN` nor an `i32`, an unknown event name, or a header deeper
/// than its place allows.
pub fn try_init_tree_file(s: String) -> (r: Option<DialogNode>)
    requires
        s@.len() < i32::MAX,
    ensures
        match r {
            Some(n) => parse_file(s@) == Some(n@),
            None => parse_file(s@) is None,
        },
{
    let chars = str_to_chars(s.as_str());
    let mut reader = FileReader::new();
    let mut i: usize = 0;
    while i < chars.len()
        invariant
            i <= chars.len(),
            chars@ == s@,
            chars.len() < i32::MAX,
            file_run(s@, i as int) == Some(reader@),
            file_inv(reader@, i as int),
        decreases chars.len() - i,
    {
        if !reader.step(chars[i], Ghost(i as int)) {
            assert(file_run(s@, i + 1) is None);
            proof {
                lemma_file_run_stays_failed(s@, i + 1, s@.len() as int);
            }
            return None;
        }
        i = i + 1;
    }
    Some(build_tree(&reader.arena, 0))
}

/// Once reading has stopped on an error, it stays stopped.
pub proof fn lemma_file_run_stays_failed(s: Seq<char>, i: int, j: int)
    requires
        0 <= i <= j,
        file_run(s, i) is None,
    ensures
        file_run(s, j) is None,
    decreases j - i,
{
    if i < j {
        lemma_file_run_stays_failed(s, i, j - 1);
    }
}

/// The tree that the file form `s` describes (see `try_init_tree_file`);
/// `s` must be read without error.
pub fn init_tree_file(s: String) -> (r: DialogNode)
    requires
        s@.len() < i32::MAX,
        parse_file(s@) is Some,
    ensures
        parse_file(s@) == Some(r@),
{
    match try_init_tree_file(s) {
        Some(n) => n,
        None => DialogNode::new(),
    }
}

} // verus!

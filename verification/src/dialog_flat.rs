//! Reading a dialog tree from its flat form, one character at a time.
//!
//! `[Hello]->[[Hey, No Hello]->[[:)]; [:O]]]`: a node's elements stand in
//! brackets (one text, or choices separated by `,`), `->` opens its
//! children, `;` goes on with a sibling and a `]` with nothing pending goes
//! back up. `/` makes the next special character plain text.

use vstd::prelude::*;

use crate::arena::{
    add_child, add_element, add_sibling, arena_view, arena_wf, blank, build_tree, new_arena,
    parent_of, to_tree, with_child, with_element, with_sibling, ArenaEntry, ArenaNode,
};
use crate::dialog::{DialogNode, DialogType, DialogTypeModel, NodeModel};
use crate::text::{
    all_ascii, alphanumeric, char_is_alphanumeric, char_is_ascii, chars_all_ascii,
    chars_to_string, is_ascii_char, str_to_chars,
};

verus! {

/// Everything the reader remembers between two characters.
pub struct FlatState {
    pub arena: Seq<ArenaNode>,
    pub current: int,
    pub save: Seq<char>,
    /// The elements being read are choices (else a text).
    pub choice_mode: bool,
    /// The previous character was the escape `/`.
    pub except: bool,
}

/// The characters with a meaning in the flat form.
pub open spec fn is_special_flat(c: char) -> bool {
    c == '/' || c == '[' || c == ']' || c == '|' || c == '>' || c == ';' || c == ','
}

/// `s` without its first character when that is a blank.
pub open spec fn drop_blank(s: Seq<char>) -> Seq<char> {
    if s.len() > 0 && s[0] == ' ' {
        s.drop_first()
    } else {
        s
    }
}

/// The state before the first character: a root and nothing else.
pub open spec fn flat_start() -> FlatState {
    FlatState {
        arena: seq![blank(None)],
        current: 0,
        save: Seq::empty(),
        choice_mode: false,
        except: false,
    }
}

/// The effect of one character; `None` where reading stops on an error (a
/// `>` with no pending text, such as `]>`).
pub open spec fn flat_step(st: FlatState, c: char) -> Option<FlatState> {
    if c == ']' && st.save.len() == 0 {
        Some(
            FlatState {
                current: match st.arena[st.current].parent {
                    Some(p) => p,
                    None => st.current,
                },
                ..st
            },
        )
    } else if (c == ',' || (c == ']' && st.choice_mode && !st.except)) && st.save.len() > 0 {
        Some(
            FlatState {
                arena: with_element(
                    st.arena,
                    st.current,
                    DialogTypeModel::Choice { text: drop_blank(st.save), condition: None },
                ),
                save: Seq::empty(),
                choice_mode: true,
                ..st
            },
        )
    } else if c == ']' && !st.choice_mode && !st.except && st.save.len() > 0 {
        Some(
            FlatState {
                arena: with_element(
                    st.arena,
                    st.current,
                    DialogTypeModel::Text(drop_blank(st.save)),
                ),
                save: Seq::empty(),
                ..st
            },
        )
    } else if c == '>' && !st.except {
        if st.save.len() == 0 {
            None
        } else {
            Some(
                FlatState {
                    arena: with_child(st.arena, st.current),
                    current: st.arena.len() as int,
                    save: if all_ascii(st.save) && st.save.last() == '-' {
                        st.save.drop_last()
                    } else {
                        st.save
                    },
                    choice_mode: false,
                    ..st
                },
            )
        }
    } else if c == ';' && !st.except {
        Some(
            FlatState {
                arena: with_sibling(st.arena, st.current),
                current: st.arena.len() as int,
                choice_mode: false,
                ..st
            },
        )
    } else if is_ascii_char(c) || alphanumeric(c) {
        if c == '/' {
            Some(FlatState { except: true, ..st })
        } else if !is_special_flat(c) || st.except {
            Some(FlatState { save: st.save.push(c), except: false, ..st })
        } else {
            Some(st)
        }
    } else {
        Some(st)
    }
}

/// The state after the first `k` characters of `s`.
pub open spec fn flat_run(s: Seq<char>, k: int) -> Option<FlatState>
    decreases k,
{
    if k <= 0 {
        Some(flat_start())
    } else {
        match flat_run(s, k - 1) {
            Some(st) => flat_step(st, s[k - 1]),
            None => None,
        }
    }
}

/// The tree that the flat form `s` describes; `None` when reading stops on
/// an error.
pub open spec fn parse_flat(s: Seq<char>) -> Option<NodeModel> {
    match flat_run(s, s.len() as int) {
        Some(st) => Some(to_tree(st.arena, 0)),
        None => None,
    }
}

/// A well-formed arena, no larger than one node per character read.
pub open spec fn flat_inv(st: FlatState, k: int) -> bool {
    &&& arena_wf(st.arena)
    &&& 1 <= st.arena.len() <= k + 1
    &&& 0 <= st.current < st.arena.len()
}

/// `true` for the characters with a meaning in the flat form.
pub fn is_special_char_flat(c: char) -> (b: bool)
    ensures
        b == is_special_flat(c),
{
    c == '/' || c == '[' || c == ']' || c == '|' || c == '>' || c == ';' || c == ','
}

struct FlatReader {
    arena: Vec<ArenaEntry>,
    current: usize,
    save: Vec<char>,
    choice_mode: bool,
    except: bool,
}

impl View for FlatReader {
    type V = FlatState;

    closed spec fn view(&self) -> FlatState {
        FlatState {
            arena: arena_view(self.arena@),
            current: self.current as int,
            save: self.save@,
            choice_mode: self.choice_mode,
            except: self.except,
        }
    }
}

fn drop_blank_chars(s: &Vec<char>) -> (r: Vec<char>)
    ensures
        r@ == drop_blank(s@),
{
    let mut r: Vec<char> = Vec::new();
    let start: usize = if s.len() > 0 && s[0] == ' ' {
        1
    } else {
        0
    };
    let mut j: usize = start;
    while j < s.len()
        invariant
            start <= j <= s.len(),
            r@ == s@.subrange(start as int, j as int),
        decreases s.len() - j,
    {
        r.push(s[j]);
        j = j + 1;
        assert(s@.subrange(start as int, j as int) =~= s@.subrange(start as int, j - 1).push(
            s@[j - 1],
        ));
    }
    assert(r@ =~= drop_blank(s@));
    r
}

impl FlatReader {
    fn new() -> (r: FlatReader)
        ensures
            r@ == flat_start(),
            flat_inv(r@, 0),
    {
        let r = FlatReader {
            arena: new_arena(),
            current: 0,
            save: Vec::new(),
            choice_mode: false,
            except: false,
        };
        assert(r@ =~= flat_start());
        r
    }

    fn step(&mut self, c: char, k: Ghost<int>) -> (ok: bool)
        requires
            flat_inv(old(self)@, k@),
            0 <= k@ < usize::MAX - 1,
        ensures
            ok == flat_step(old(self)@, c) is Some,
            ok ==> final(self)@ == flat_step(old(self)@, c)->0,
            ok ==> flat_inv(final(self)@, k@ + 1),
    {
        let ghost st = self@;
        if c == ']' && self.save.len() == 0 {
            match parent_of(&self.arena, self.current) {
                Some(p) => {
                    self.current = p;
                },
                None => {},
            }
        } else if (c == ',' || (c == ']' && self.choice_mode && !self.except)) && self.save.len()
            > 0 {
            let text = drop_blank_chars(&self.save);
            let d = DialogType::Choice { text: chars_to_string(&text), condition: None };
            add_element(&mut self.arena, self.current, d);
            self.save = Vec::new();
            self.choice_mode = true;
            assert(self@.save =~= Seq::<char>::empty());
        } else if c == ']' && !self.choice_mode && !self.except && self.save.len() > 0 {
            let text = drop_blank_chars(&self.save);
            add_element(&mut self.arena, self.current, DialogType::Text(chars_to_string(&text)));
            self.save = Vec::new();
            assert(self@.save =~= Seq::<char>::empty());
        } else if c == '>' && !self.except {
            if self.save.len() == 0 {
                return false;
            }
            if chars_all_ascii(&self.save) && self.save[self.save.len() - 1] == '-' {
                self.save.pop();
            }
            let child = add_child(&mut self.arena, self.current);
            self.current = child;
            self.choice_mode = false;
        } else if c == ';' && !self.except {
            let sibling = add_sibling(&mut self.arena, self.current);
            self.current = sibling;
            self.choice_mode = false;
        } else if char_is_ascii(c) || char_is_alphanumeric(c) {
            if c == '/' {
                self.except = true;
            } else if !is_special_char_flat(c) || self.except {
                self.save.push(c);
                self.except = false;
            }
        }
        assert(self@ =~= flat_step(st, c)->0);
        true
    }
}

/// Once reading has stopped on an error, it stays stopped.
pub proof fn lemma_flat_run_stays_failed(s: Seq<char>, i: int, j: int)
    requires
        0 <= i <= j,
        flat_run(s, i) is None,
    ensures
        flat_run(s, j) is None,
    decreases j - i,
{
    if i < j {
        lemma_flat_run_stays_failed(s, i, j - 1);
    }
}

/// The tree that the flat form `s` describes, or `None` where reading it
/// stops on an error (a `>` with no pending text).
pub fn try_init_tree_flat(s: String) -> (r: Option<DialogNode>)
    requires
        s@.len() < usize::MAX - 1,
    ensures
        match r {
            Some(n) => parse_flat(s@) == Some(n@),
            None => parse_flat(s@) is None,
        },
{
    let chars = str_to_chars(s.as_str());
    let mut reader = FlatReader::new();
    let mut i: usize = 0;
    while i < chars.len()
        invariant
            i <= chars.len(),
            chars@ == s@,
            chars.len() < usize::MAX - 1,
            flat_run(s@, i as int) == Some(reader@),
            flat_inv(reader@, i as int),
        decreases chars.len() - i,
    {
        if !reader.step(chars[i], Ghost(i as int)) {
            assert(flat_run(s@, i + 1) is None);
            proof {
                lemma_flat_run_stays_failed(s@, i + 1, s@.len() as int);
            }
            return None;
        }
        i = i + 1;
    }
    Some(build_tree(&reader.arena, 0))
}

/// The tree that the flat form `s` describes (see `try_init_tree_flat`);
/// `s` must be read without error.
///
/// Deprecated: the flat form knows neither speakers, conditions nor
/// events; prefer `init_tree_file`.
pub fn init_tree_flat(s: String) -> (r: DialogNode)
    requires
        s@.len() < usize::MAX - 1,
        parse_flat(s@) is Some,
    ensures
        parse_flat(s@) == Some(r@),
{
    match try_init_tree_flat(s) {
        Some(n) => n,
        None => DialogNode::new(),
    }
}

} // verus!

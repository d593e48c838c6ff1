//! Reading back the flat form: for a tree whose texts are plain and whose
//! nodes hold one text or several choices, reading the join form of the
//! tree gives the tree again.

use vstd::prelude::*;

use crate::arena::{arena_wf, blank, to_tree, with_child, with_element, with_sibling, ArenaNode};
use crate::dialog::{DialogTypeModel, NodeModel};
use crate::dialog_flat::{
    drop_blank, flat_run, flat_start, flat_step, is_special_flat, parse_flat, FlatState,
};
use crate::dialog_print::{element_text, join};
use crate::file_format::{
    laid_out, lemma_laid_out_frame, lemma_laid_out_tree, lemma_wf_with_child,
    lemma_wf_with_fields,
};
use crate::flat_writing::{flat_form, flat_forms, texts};
use crate::text::{all_ascii, alphanumeric, is_ascii_char};

verus! {

/// A character that the flat form keeps as it is.
pub open spec fn flat_plain_char(c: char) -> bool {
    (is_ascii_char(c) || alphanumeric(c)) && !is_special_flat(c)
}

/// A text that the flat form writes and reads back: not empty, not
/// starting with a blank, made of plain characters.
pub open spec fn flat_plain(t: Seq<char>) -> bool {
    &&& t.len() > 0
    &&& t[0] != ' '
    &&& forall|i: int| 0 <= i < t.len() ==> flat_plain_char(#[trigger] t[i])
}

/// The choices without condition whose texts are `cs`.
pub open spec fn choices_of(cs: Seq<Seq<char>>) -> Seq<DialogTypeModel> {
    cs.map_values(|t: Seq<char>| DialogTypeModel::Choice { text: t, condition: None })
}

/// A node as the flat form carries it: no speaker, no thrown event, plain
/// texts, and either one text or at least two choices without condition.
pub open spec fn flat_node_shape(m: NodeModel) -> bool {
    &&& m.character is None
    &&& m.trigger_event.len() == 0
    &&& forall|i: int|
        0 <= i < m.dialog_type.len() ==> flat_plain(element_text(#[trigger] m.dialog_type[i]))
    &&& (m.dialog_type.len() == 1 && m.dialog_type[0] is Text) || (m.dialog_type.len() >= 2
        && m.dialog_type == choices_of(texts(m.dialog_type)))
}

/// Every node of the tree is carried by the flat form.
pub open spec fn flat_readable(m: NodeModel) -> bool
    decreases m,
{
    &&& flat_node_shape(m)
    &&& forall|k: int| 0 <= k < m.children.len() ==> flat_readable(#[trigger] m.children[k])
}

/// The state reached from `st` by reading `w`.
pub open spec fn flat_from(st: FlatState, w: Seq<char>) -> Option<FlatState>
    decreases w.len(),
{
    if w.len() == 0 {
        Some(st)
    } else {
        match flat_from(st, w.drop_last()) {
            Some(s) => flat_step(s, w.last()),
            None => None,
        }
    }
}

proof fn lemma_flat_concat(st: FlatState, u: Seq<char>, v: Seq<char>)
    ensures
        flat_from(st, u + v) == match flat_from(st, u) {
            Some(s) => flat_from(s, v),
            None => None,
        },
    decreases v.len(),
{
    if v.len() == 0 {
        assert(u + v =~= u);
    } else {
        assert((u + v).drop_last() =~= u + v.drop_last());
        assert((u + v).last() == v.last());
        lemma_flat_concat(st, u, v.drop_last());
    }
}

proof fn lemma_flat_then(st: FlatState, u: Seq<char>, v: Seq<char>, mid: FlatState)
    requires
        flat_from(st, u) == Some(mid),
    ensures
        flat_from(st, u + v) == flat_from(mid, v),
{
    lemma_flat_concat(st, u, v);
}

proof fn lemma_flat_single(st: FlatState, c: char)
    ensures
        flat_from(st, seq![c]) == flat_step(st, c),
{
    assert(seq![c].drop_last() =~= Seq::<char>::empty());
    assert(flat_from(st, Seq::<char>::empty()) == Some(st));
    assert(seq![c].last() == c);
}

proof fn lemma_flat_run_is_from(s: Seq<char>, k: int)
    requires
        0 <= k <= s.len(),
    ensures
        flat_run(s, k) == flat_from(flat_start(), s.take(k)),
    decreases k,
{
    if k > 0 {
        lemma_flat_run_is_from(s, k - 1);
        assert(s.take(k).drop_last() =~= s.take(k - 1));
        assert(s.take(k).last() == s[k - 1]);
    } else {
        assert(s.take(0) =~= Seq::<char>::empty());
    }
}

/// Plain characters are kept.
proof fn lemma_flat_plain(st: FlatState, w: Seq<char>)
    requires
        !st.except,
        forall|i: int| 0 <= i < w.len() ==> flat_plain_char(#[trigger] w[i]),
    ensures
        flat_from(st, w) == Some(FlatState { save: st.save + w, ..st }),
    decreases w.len(),
{
    if w.len() == 0 {
        assert(st.save + w =~= st.save);
    } else {
        lemma_flat_plain(st, w.drop_last());
        let s1 = FlatState { save: st.save + w.drop_last(), ..st };
        assert(flat_plain_char(w[w.len() - 1]));
        assert(flat_step(s1, w.last()) == Some(FlatState { save: s1.save.push(w.last()), ..s1 }));
        assert(s1.save.push(w.last()) =~= st.save + w);
    }
}

/// The state in which the node `q`, still empty, is about to be read,
/// with one blank or nothing pending.
pub open spec fn fresh(st: FlatState, q: int) -> bool {
    &&& arena_wf(st.arena)
    &&& 0 <= q < st.arena.len()
    &&& st.current == q
    &&& st.arena[q].dialog_type.len() == 0
    &&& st.arena[q].children.len() == 0
    &&& st.arena[q].character is None
    &&& st.arena[q].trigger_event.len() == 0
    &&& (st.save.len() == 0 || st.save == seq![' '])
    &&& !st.except
    &&& !st.choice_mode
}

/// Node `q` is read from `st` into `s`: it holds the tree `m`, nothing
/// older changed, and the reader is back at `q` with nothing pending.
pub open spec fn node_read(st: FlatState, s: FlatState, m: NodeModel, q: int) -> bool {
    &&& arena_wf(s.arena)
    &&& st.arena.len() <= s.arena.len()
    &&& s.current == q
    &&& s.save.len() == 0
    &&& !s.except
    &&& laid_out(s.arena, q, m)
    &&& s.arena[q].parent == st.arena[q].parent
    &&& forall|i: int| 0 <= i < st.arena.len() && i != q ==> s.arena[i] == st.arena[i]
}

proof fn lemma_drop_blank(save0: Seq<char>, t: Seq<char>)
    requires
        save0.len() == 0 || save0 == seq![' '],
        flat_plain(t),
    ensures
        drop_blank(save0 + t) == t,
        (save0 + t).len() > 0,
{
    if save0.len() == 0 {
        assert(save0 + t =~= t);
    } else {
        assert((save0 + t).drop_first() =~= t);
    }
}

/// The opening bracket changes nothing.
proof fn lemma_flat_open(st: FlatState)
    requires
        !st.except,
    ensures
        flat_from(st, seq!['[']) == Some(st),
{
    lemma_flat_single(st, '[');
}

/// Reading `[` and the first `k` choices, joined by `, `.
proof fn lemma_read_choice_list(st: FlatState, q: int, cs: Seq<Seq<char>>, k: int)
    requires
        fresh(st, q),
        1 <= k <= cs.len(),
        forall|i: int| 0 <= i < cs.len() ==> flat_plain(#[trigger] cs[i]),
    ensures
        flat_from(st, seq!['['] + join(cs.take(k), seq![',', ' '])) == Some(
            FlatState {
                arena: st.arena.update(
                    q,
                    ArenaNode { dialog_type: choices_of(cs.take(k - 1)), ..st.arena[q] },
                ),
                save: if k == 1 {
                    st.save + cs[0]
                } else {
                    seq![' '] + cs[k - 1]
                },
                choice_mode: k >= 2,
                ..st
            },
        ),
    decreases k,
{
    let sep = seq![',', ' '];
    lemma_flat_open(st);
    if k == 1 {
        assert(join(cs.take(1), sep) == cs[0]);
        assert(flat_plain(cs[0]));
        lemma_flat_plain(st, cs[0]);
        lemma_flat_then(st, seq!['['], cs[0], st);
        assert(choices_of(cs.take(0)) =~= st.arena[q].dialog_type);
        assert(st.arena.update(q, ArenaNode { dialog_type: choices_of(cs.take(0)), ..st.arena[q] })
            =~= st.arena);
    } else {
        lemma_read_choice_list(st, q, cs, k - 1);
        let s1 = flat_from(st, seq!['['] + join(cs.take(k - 1), sep))->0;
        assert(cs.take(k).drop_last() =~= cs.take(k - 1));
        assert(join(cs.take(k), sep) == join(cs.take(k - 1), sep) + sep + cs[k - 1]);
        let prev = cs[k - 2];
        assert(flat_plain(prev));
        let save0 = st.save;
        if k - 1 == 1 {
            lemma_drop_blank(save0, prev);
        } else {
            lemma_drop_blank(seq![' '], prev);
        }
        let d = DialogTypeModel::Choice { text: prev, condition: None };
        let a2 = with_element(s1.arena, q, d);
        assert(choices_of(cs.take(k - 2)).push(d) =~= choices_of(cs.take(k - 1)));
        assert(a2 =~= st.arena.update(
            q,
            ArenaNode { dialog_type: choices_of(cs.take(k - 1)), ..st.arena[q] },
        ));
        let s2 = FlatState { arena: a2, save: Seq::empty(), choice_mode: true, ..st };
        assert(flat_step(s1, ',') == Some(s2));
        lemma_flat_single(s1, ',');
        let s3 = FlatState { save: seq![' '], ..s2 };
        assert(is_ascii_char(' '));
        assert(flat_step(s2, ' ') == Some(s3));
        lemma_flat_single(s2, ' ');
        assert(flat_plain(cs[k - 1]));
        lemma_flat_plain(s3, cs[k - 1]);
        let w = seq!['['] + join(cs.take(k - 1), sep);
        lemma_flat_then(st, w, seq![','], s1);
        lemma_flat_then(st, w + seq![','], seq![' '], s2);
        assert(w + seq![','] + seq![' '] =~= w + sep);
        lemma_flat_then(st, w + sep, cs[k - 1], s3);
        assert(seq!['['] + join(cs.take(k), sep) =~= w + sep + cs[k - 1]);
    }
}

/// Reading a node's elements in brackets.
proof fn lemma_read_elements(st: FlatState, q: int, m: NodeModel)
    requires
        fresh(st, q),
        flat_node_shape(m),
    ensures
        flat_from(
            st,
            seq!['['] + join(texts(m.dialog_type), seq![',', ' ']) + seq![']'],
        ) == Some(
            FlatState {
                arena: st.arena.update(q, ArenaNode { dialog_type: m.dialog_type, ..st.arena[q] }),
                save: Seq::empty(),
                choice_mode: m.dialog_type.len() >= 2,
                ..st
            },
        ),
{
    let ds = m.dialog_type;
    let cs = texts(ds);
    let sep = seq![',', ' '];
    assert forall|i: int| 0 <= i < cs.len() implies flat_plain(#[trigger] cs[i]) by {
        assert(flat_plain(element_text(ds[i])));
    }
    if ds.len() == 1 {
        let t = cs[0];
        assert(join(cs, sep) == t);
        lemma_flat_open(st);
        lemma_flat_plain(st, t);
        lemma_flat_then(st, seq!['['], t, st);
        let s1 = FlatState { save: st.save + t, ..st };
        lemma_drop_blank(st.save, t);
        let d = DialogTypeModel::Text(t);
        assert(ds[0] == d);
        assert(st.arena[q].dialog_type.push(d) =~= ds);
        assert(flat_step(s1, ']') == Some(
            FlatState { arena: with_element(st.arena, q, d), save: Seq::empty(), ..st },
        ));
        lemma_flat_single(s1, ']');
        lemma_flat_then(st, seq!['['] + t, seq![']'], s1);
    } else {
        let n = cs.len() as int;
        lemma_read_choice_list(st, q, cs, n);
        assert(cs.take(n) =~= cs);
        let s1 = flat_from(st, seq!['['] + join(cs, sep))->0;
        lemma_drop_blank(seq![' '], cs[n - 1]);
        let d = DialogTypeModel::Choice { text: cs[n - 1], condition: None };
        assert(choices_of(cs.take(n - 1)).push(d) =~= choices_of(cs));
        assert(flat_step(s1, ']') == Some(
            FlatState {
                arena: with_element(s1.arena, q, d),
                save: Seq::empty(),
                choice_mode: true,
                ..st
            },
        ));
        assert(with_element(s1.arena, q, d) =~= st.arena.update(
            q,
            ArenaNode { dialog_type: ds, ..st.arena[q] },
        ));
        lemma_flat_single(s1, ']');
        lemma_flat_then(st, seq!['['] + join(cs, sep), seq![']'], s1);
    }
}

/// After the first `k` children of node `q` (whose elements were read in
/// `s1`) are read into `s`.
pub open spec fn kids_read(s1: FlatState, s: FlatState, m: NodeModel, q: int, k: int) -> bool {
    &&& arena_wf(s.arena)
    &&& s1.arena.len() <= s.arena.len()
    &&& 0 <= q < s1.arena.len()
    &&& s.arena[q] == ArenaNode { children: s.arena[q].children, ..s1.arena[q] }
    &&& s.arena[q].children.len() == k
    &&& forall|i: int| 0 <= i < s1.arena.len() && i != q ==> s.arena[i] == s1.arena[i]
    &&& forall|j: int|
        0 <= j < k ==> q < #[trigger] s.arena[q].children[j] < s.arena.len() && laid_out(
            s.arena,
            s.arena[q].children[j],
            m.children[j],
        )
    &&& k >= 1 ==> s.current == s.arena[q].children[k - 1]
    &&& 0 <= s.current < s.arena.len()
    &&& s.arena[s.current].parent == Some(q)
    &&& s.save.len() == 0
    &&& !s.except
}

proof fn lemma_read_kids(s1: FlatState, s2: FlatState, m: NodeModel, q: int, k: int)
    requires
        s1.arena[q].children.len() == 0,
        0 <= q < s1.arena.len(),
        arena_wf(s1.arena),
        s2 == (FlatState {
            arena: with_child(s1.arena, q),
            current: s1.arena.len() as int,
            choice_mode: false,
            ..s1
        }),
        s1.save.len() == 0,
        !s1.except,
        flat_readable(m),
        1 <= k <= m.children.len(),
    ensures
        match flat_from(s2, join(flat_forms(m).take(k), seq![';', ' '])) {
            Some(s) => kids_read(s1, s, m, q, k),
            None => false,
        },
    decreases m, 0int, k,
{
    let fs = flat_forms(m);
    let sep = seq![';', ' '];
    if k == 1 {
        assert(join(fs.take(1), sep) == fs[0]);
        let n1 = s1.arena.len() as int;
        lemma_wf_with_child(s1.arena, q);
        assert(fresh(s2, n1));
        assert(flat_readable(m.children[0]));
        lemma_read_node(s2, m.children[0], n1);
        let s = flat_from(s2, fs[0])->0;
        assert(s2.arena[q].children == seq![n1]);
        assert(s.arena[q] == s2.arena[q]);
    } else {
        lemma_read_kids(s1, s2, m, q, k - 1);
        let s = flat_from(s2, join(fs.take(k - 1), sep))->0;
        assert(fs.take(k).drop_last() =~= fs.take(k - 1));
        assert(join(fs.take(k), sep) == join(fs.take(k - 1), sep) + sep + fs[k - 1]);
        let n = s.arena.len() as int;
        let a = with_child(s.arena, q);
        assert(with_sibling(s.arena, s.current) == a);
        let t1 = FlatState { arena: a, current: n, choice_mode: false, ..s };
        assert(flat_step(s, ';') == Some(t1));
        lemma_flat_single(s, ';');
        let t2 = FlatState { save: seq![' '], ..t1 };
        assert(is_ascii_char(' '));
        assert(t1.save.push(' ') =~= seq![' ']);
        assert(flat_step(t1, ' ') == Some(t2));
        lemma_flat_single(t1, ' ');
        lemma_wf_with_child(s.arena, q);
        assert(t2.save == seq![' ']);
        assert(fresh(t2, n));
        assert(flat_readable(m.children[k - 1]));
        lemma_read_node(t2, m.children[k - 1], n);
        let s3 = flat_from(t2, fs[k - 1])->0;
        let w = join(fs.take(k - 1), sep);
        lemma_flat_then(s2, w, seq![';'], s);
        lemma_flat_then(s2, w + seq![';'], seq![' '], t1);
        assert(w + seq![';'] + seq![' '] =~= w + sep);
        lemma_flat_then(s2, w + sep, fs[k - 1], t2);
        assert forall|j: int| 0 <= j < k implies q < #[trigger] s3.arena[q].children[j]
            < s3.arena.len() && laid_out(s3.arena, s3.arena[q].children[j], m.children[j]) by {
            if j < k - 1 {
                let c = s.arena[q].children[j];
                assert(s3.arena[q].children[j] == c);
                lemma_laid_out_frame(s.arena, s3.arena, c, m.children[j]);
            }
        }
    }
}

proof fn lemma_read_node(st: FlatState, m: NodeModel, q: int)
    requires
        fresh(st, q),
        flat_readable(m),
    ensures
        match flat_from(st, flat_form(m)) {
            Some(s) => node_read(st, s, m, q),
            None => false,
        },
    decreases m, 1int,
{
    let ds = m.dialog_type;
    let head = seq!['['] + join(texts(ds), seq![',', ' ']) + seq![']'];
    lemma_read_elements(st, q, m);
    let a1 = st.arena.update(q, ArenaNode { dialog_type: ds, ..st.arena[q] });
    let s1 = FlatState { arena: a1, save: Seq::empty(), choice_mode: ds.len() >= 2, ..st };
    lemma_wf_with_fields(st.arena, q, ArenaNode { dialog_type: ds, ..st.arena[q] });
    assert(st.arena[q].trigger_event =~= m.trigger_event);
    assert(st.arena[q].character == m.character);
    if m.children.len() == 0 {
        assert(flat_form(m) == head);
        assert(laid_out(s1.arena, q, m));
    } else {
        let sm = FlatState { save: seq!['-'], ..s1 };
        assert(is_ascii_char('-'));
        assert(s1.save.push('-') =~= seq!['-']);
        assert(flat_step(s1, '-') == Some(sm));
        lemma_flat_single(s1, '-');
        assert(all_ascii(seq!['-']));
        assert(seq!['-'].drop_last() =~= Seq::<char>::empty());
        let s2 = FlatState {
            arena: with_child(s1.arena, q),
            current: s1.arena.len() as int,
            choice_mode: false,
            ..s1
        };
        assert(flat_step(sm, '>') == Some(s2));
        lemma_flat_single(sm, '>');
        lemma_flat_open(s2);
        let n = m.children.len() as int;
        lemma_read_kids(s1, s2, m, q, n);
        let fs = flat_forms(m);
        assert(fs.take(n) =~= fs);
        let s3 = flat_from(s2, join(fs, seq![';', ' ']))->0;
        let s4 = FlatState { current: q, ..s3 };
        assert(flat_step(s3, ']') == Some(s4));
        lemma_flat_single(s3, ']');
        lemma_flat_then(st, head, seq!['-'], s1);
        assert(head + seq!['-'] + seq!['>'] =~= head + seq!['-', '>']);
        lemma_flat_then(st, head + seq!['-'], seq!['>'], sm);
        lemma_flat_then(st, head + seq!['-', '>'], seq!['['], s2);
        assert(head + seq!['-', '>'] + seq!['['] =~= head + seq!['-', '>', '[']);
        let w = head + seq!['-', '>', '['];
        lemma_flat_then(st, w, join(fs, seq![';', ' ']), s2);
        lemma_flat_then(st, w + join(fs, seq![';', ' ']), seq![']'], s3);
        assert(flat_form(m) =~= w + join(fs, seq![';', ' ']) + seq![']']);
        assert(s4.arena[q].dialog_type == ds);
        assert(laid_out(s4.arena, q, m));
    }
}

/// Reading back the flat form: the join form of a tree whose texts are
/// plain and whose nodes hold one text or at least two choices reads as
/// that tree. In particular a node after `;` starts again with a text,
/// unless a `,` follows its first element.
pub proof fn lemma_flat_form_reads_back(m: NodeModel)
    requires
        flat_readable(m),
    ensures
        parse_flat(flat_form(m)) == Some(m),
{
    let st = flat_start();
    assert(arena_wf(st.arena));
    assert(fresh(st, 0));
    lemma_read_node(st, m, 0);
    let w = flat_form(m);
    let s = flat_from(st, w)->0;
    lemma_laid_out_tree(s.arena, 0, m);
    lemma_flat_run_is_from(w, w.len() as int);
    assert(w.take(w.len() as int) =~= w);
}

} // verus!

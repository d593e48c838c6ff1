//! What `print_flat` writes, stated directly: a node's texts in brackets,
//! separated by `, `, then `->` and its children's flat forms in brackets,
//! separated by `; `.

use vstd::prelude::*;

use crate::dialog::{DialogTypeModel, NodeModel};
use crate::dialog_print::{element_text, flat_children, flat_elements, join, print_flat_model};
use crate::text::{occurs_at, replace_all};
use crate::text_facts::{
    avoids, lemma_absent_avoids, lemma_avoids_concat, lemma_occurs_char, lemma_replace_hit,
    lemma_replace_id, lemma_replace_split, lemma_straddle_first, lemma_straddle_last, no_straddle,
};

verus! {

/// The texts of the elements, in order.
pub open spec fn texts(ds: Seq<DialogTypeModel>) -> Seq<Seq<char>> {
    ds.map_values(|d: DialogTypeModel| element_text(d))
}

/// `s` holds neither `[` nor `]`.
pub open spec fn bracket_free(s: Seq<char>) -> bool {
    forall|i: int| 0 <= i < s.len() ==> s[i] != '[' && s[i] != ']'
}

/// `s` ends with `; `.
pub open spec fn ends_with_semicolon_blank(s: Seq<char>) -> bool {
    s.len() >= 2 && s[s.len() - 2] == ';' && s.last() == ' '
}

/// A node whose flat form `print_flat` writes as the join form: no text
/// holds a bracket, and its joined texts do not end with `; ` (which the
/// writer would take for the end of a list).
pub open spec fn flat_node_ok(m: NodeModel) -> bool {
    &&& forall|i: int|
        0 <= i < m.dialog_type.len() ==> bracket_free(element_text(#[trigger] m.dialog_type[i]))
    &&& !ends_with_semicolon_blank(join(texts(m.dialog_type), seq![',', ' ']))
}

/// Every node of the tree is a `flat_node_ok` node.
pub open spec fn flat_tree_ok(m: NodeModel) -> bool
    decreases m,
{
    &&& flat_node_ok(m)
    &&& forall|k: int| 0 <= k < m.children.len() ==> flat_tree_ok(#[trigger] m.children[k])
}

/// The join form of the flat form of a node.
pub open spec fn flat_form(m: NodeModel) -> Seq<char>
    decreases m, 1int,
{
    let head = seq!['['] + join(texts(m.dialog_type), seq![',', ' ']) + seq![']'];
    if m.children.len() == 0 {
        head
    } else {
        head + seq!['-', '>', '['] + join(flat_forms(m), seq![';', ' ']) + seq![']']
    }
}

/// The join forms of the children of a node, in order.
pub open spec fn flat_forms(m: NodeModel) -> Seq<Seq<char>>
    decreases m, 0int,
{
    Seq::new(
        m.children.len(),
        |i: int|
            if 0 <= i < m.children.len() {
                flat_form(m.children[i])
            } else {
                Seq::empty()
            },
    )
}

/// A piece of a flat form: it starts with `[`, ends with `]`, and holds
/// neither `; ]` nor `->[]`.
pub open spec fn flat_piece(s: Seq<char>) -> bool {
    &&& s.len() >= 2
    &&& s[0] == '['
    &&& s.last() == ']'
    &&& avoids(s, seq![';', ' ', ']'])
    &&& avoids(s, seq!['-', '>', '[', ']'])
}

proof fn lemma_flat_elements(ds: Seq<DialogTypeModel>)
    requires
        ds.len() > 0,
    ensures
        flat_elements(ds) == join(texts(ds), seq![',', ' ']) + seq![',', ' '],
    decreases ds.len(),
{
    reveal_strlit(", ");
    assert(", "@ =~= seq![',', ' ']);
    let pre = ds.drop_last();
    assert(texts(ds).drop_last() =~= texts(pre));
    assert(texts(ds).last() == element_text(ds.last()));
    if ds.len() == 1 {
        assert(flat_elements(pre) =~= Seq::<char>::empty());
        assert(flat_elements(ds) =~= element_text(ds[0]) + seq![',', ' ']);
    } else {
        lemma_flat_elements(pre);
        assert(flat_elements(ds) =~= join(texts(ds), seq![',', ' ']) + seq![',', ' ']);
    }
}

proof fn lemma_join_bracket_free(parts: Seq<Seq<char>>, sep: Seq<char>)
    requires
        bracket_free(sep),
        forall|i: int| 0 <= i < parts.len() ==> bracket_free(#[trigger] parts[i]),
    ensures
        bracket_free(join(parts, sep)),
    decreases parts.len(),
{
    if parts.len() > 1 {
        lemma_join_bracket_free(parts.drop_last(), sep);
        assert(bracket_free(parts[parts.len() - 1]));
    } else if parts.len() == 1 {
        assert(bracket_free(parts[0]));
    }
}

/// A text shorter than `pat` avoids it.
proof fn lemma_short_avoids(s: Seq<char>, pat: Seq<char>)
    requires
        s.len() < pat.len(),
    ensures
        avoids(s, pat),
{
}

/// The head of a node: its texts, in brackets.
proof fn lemma_head(m: NodeModel)
    requires
        flat_node_ok(m),
    ensures
        replace_all("["@ + flat_elements(m.dialog_type) + "]"@, ", ]"@, "]"@) == seq!['[']
            + join(texts(m.dialog_type), seq![',', ' ']) + seq![']'],
        flat_piece(seq!['['] + join(texts(m.dialog_type), seq![',', ' ']) + seq![']']),
{
    reveal_strlit("[");
    reveal_strlit("]");
    reveal_strlit(", ]");
    assert("["@ =~= seq!['[']);
    assert("]"@ =~= seq![']']);
    assert(", ]"@ =~= seq![',', ' ', ']']);
    let ds = m.dialog_type;
    let j = join(texts(ds), seq![',', ' ']);
    assert forall|i: int| 0 <= i < texts(ds).len() implies bracket_free(#[trigger] texts(ds)[i]) by {
        assert(bracket_free(element_text(ds[i])));
    }
    lemma_join_bracket_free(texts(ds), seq![',', ' ']);
    let u = seq!['['] + j;
    let pat = seq![',', ' ', ']'];
    assert forall|i: int| 0 <= i < u.len() implies u[i] != pat[2] by {
        if i > 0 {
            assert(u[i] == j[i - 1]);
        }
    }
    lemma_absent_avoids(u, pat, 2);
    if ds.len() == 0 {
        assert(flat_elements(ds) =~= Seq::<char>::empty());
        assert(j =~= Seq::<char>::empty());
        lemma_short_avoids(seq!['[', ']'], pat);
        assert("["@ + flat_elements(ds) + "]"@ =~= seq!['[', ']']);
        lemma_replace_id(seq!['[', ']'], pat, seq![']']);
        assert(seq!['['] + j + seq![']'] =~= seq!['[', ']']);
    } else {
        lemma_flat_elements(ds);
        let v = seq![',', ' ', ']'];
        assert("["@ + flat_elements(ds) + "]"@ =~= u + v);
        lemma_straddle_first(u, v, pat);
        lemma_replace_split(u, v, pat, seq![']']);
        lemma_replace_id(u, pat, seq![']']);
        lemma_replace_hit(Seq::<char>::empty(), pat, seq![']']);
        assert(pat + Seq::<char>::empty() =~= v);
        assert(replace_all(Seq::<char>::empty(), pat, seq![']']) =~= Seq::<char>::empty());
        assert(seq![']'] + Seq::<char>::empty() =~= seq![']']);
    }
    // the head is a flat piece
    let h = u + seq![']'];
    let p1 = seq![';', ' ', ']'];
    let p2 = seq!['-', '>', '[', ']'];
    lemma_absent_avoids(u, p1, 2);
    lemma_absent_avoids(seq![']'], p1, 0);
    assert forall|i: int| u.len() - p1.len() < i < u.len() implies !occurs_at(
        u + seq![']'],
        i,
        p1,
    ) by {
        if occurs_at(u + seq![']'], i, p1) {
            lemma_occurs_char(u + seq![']'], i, p1, 0);
            lemma_occurs_char(u + seq![']'], i, p1, 1);
            lemma_occurs_char(u + seq![']'], i, p1, 2);
            if i == u.len() - 2 {
                if j.len() >= 2 {
                    assert(j[j.len() - 2] == u[u.len() - 2]);
                    assert(j.last() == u[u.len() - 1]);
                } else {
                    assert(i == 0);
                }
            }
        }
    }
    lemma_avoids_concat(u, seq![']'], p1);
    assert forall|i: int| !occurs_at(h, i, p2) by {
        if occurs_at(h, i, p2) {
            lemma_occurs_char(h, i, p2, 2);
            if i + 2 < h.len() - 1 {
                assert(h[i + 2] == j[i + 1]);
            }
        }
    }
}

proof fn lemma_join_pieces(parts: Seq<Seq<char>>)
    requires
        parts.len() > 0,
        forall|i: int| 0 <= i < parts.len() ==> flat_piece(#[trigger] parts[i]),
    ensures
        flat_piece(join(parts, seq![';', ' '])),
    decreases parts.len(),
{
    let p1 = seq![';', ' ', ']'];
    let p2 = seq!['-', '>', '[', ']'];
    let sep = seq![';', ' '];
    if parts.len() == 1 {
        assert(flat_piece(parts[0]));
    } else {
        let pre = parts.drop_last();
        let last = parts.last();
        assert(flat_piece(parts[parts.len() - 1]));
        lemma_join_pieces(pre);
        let a = join(pre, sep);
        lemma_short_avoids(sep, p1);
        lemma_short_avoids(sep, p2);
        lemma_straddle_last(a, sep, p1);
        lemma_straddle_last(a, sep, p2);
        lemma_avoids_concat(a, sep, p1);
        lemma_avoids_concat(a, sep, p2);
        let b = a + sep;
        lemma_straddle_first(b, last, p1);
        lemma_straddle_last(b, last, p2);
        lemma_avoids_concat(b, last, p1);
        lemma_avoids_concat(b, last, p2);
        assert(join(parts, sep) == b + last);
    }
}

/// The join form, and what it holds, of a tree whose nodes are
/// `flat_node_ok`.
proof fn lemma_flat_form(m: NodeModel)
    requires
        flat_tree_ok(m),
    ensures
        print_flat_model(m) == flat_form(m),
        flat_piece(flat_form(m)),
    decreases m,
{
    reveal_strlit("->[");
    reveal_strlit("]");
    reveal_strlit("; ");
    reveal_strlit("; ]");
    reveal_strlit("->[]");
    reveal_strlit("");
    assert("->["@ =~= seq!['-', '>', '[']);
    assert("]"@ =~= seq![']']);
    assert("; "@ =~= seq![';', ' ']);
    assert("; ]"@ =~= seq![';', ' ', ']']);
    assert("->[]"@ =~= seq!['-', '>', '[', ']']);
    assert(""@ =~= Seq::<char>::empty());
    let p1 = seq![';', ' ', ']'];
    let p2 = seq!['-', '>', '[', ']'];
    let arrow = seq!['-', '>', '['];
    lemma_head(m);
    let h = seq!['['] + join(texts(m.dialog_type), seq![',', ' ']) + seq![']'];
    assert forall|k: int| 0 <= k < m.children.len() implies flat_children(m)[k] == flat_forms(
        m,
    )[k] && flat_piece(#[trigger] flat_forms(m)[k]) by {
        assert(flat_tree_ok(m.children[k]));
        lemma_flat_form(m.children[k]);
    }
    assert(flat_children(m) =~= flat_forms(m));
    let kids = flat_forms(m);
    let jk = join(kids, seq![';', ' ']);
    let whole = h + arrow + jk + seq![']'];
    assert(print_flat_model(m) == replace_all(replace_all(whole, p1, seq![']']), p2, Seq::<
        char,
    >::empty()));
    lemma_absent_avoids(arrow, p1, 0);
    lemma_short_avoids(arrow, p2);
    lemma_absent_avoids(seq![']'], p1, 0);
    lemma_absent_avoids(seq![']'], p2, 0);
    lemma_straddle_last(h, arrow, p1);
    lemma_straddle_last(h, arrow, p2);
    lemma_avoids_concat(h, arrow, p1);
    lemma_avoids_concat(h, arrow, p2);
    let ha = h + arrow;
    if m.children.len() == 0 {
        assert(jk =~= Seq::<char>::empty());
        assert(whole =~= ha + seq![']']);
        lemma_straddle_last(ha, seq![']'], p1);
        lemma_avoids_concat(ha, seq![']'], p1);
        lemma_replace_id(whole, p1, seq![']']);
        let tail = seq!['-', '>', '[', ']'];
        assert(whole =~= h + tail);
        lemma_straddle_last(h, tail, p2);
        lemma_replace_split(h, tail, p2, Seq::<char>::empty());
        lemma_replace_id(h, p2, Seq::<char>::empty());
        lemma_replace_hit(Seq::<char>::empty(), p2, Seq::<char>::empty());
        assert(p2 + Seq::<char>::empty() =~= tail);
        assert(replace_all(Seq::<char>::empty(), p2, Seq::<char>::empty()) =~= Seq::<
            char,
        >::empty());
        assert(h + Seq::<char>::empty() =~= h);
    } else {
        lemma_join_pieces(kids);
        lemma_straddle_last(ha, jk, p1);
        assert forall|i: int| ha.len() - p2.len() < i < ha.len() implies !occurs_at(
            ha + jk,
            i,
            p2,
        ) by {
            if occurs_at(ha + jk, i, p2) {
                lemma_occurs_char(ha + jk, i, p2, 0);
                lemma_occurs_char(ha + jk, i, p2, 3);
                if i == ha.len() - 3 {
                    assert((ha + jk)[i + 3] == jk[0]);
                } else {
                    assert((ha + jk)[i] == ha[i]);
                }
            }
        }
        lemma_avoids_concat(ha, jk, p1);
        lemma_avoids_concat(ha, jk, p2);
        let hj = ha + jk;
        lemma_straddle_last(hj, seq![']'], p1);
        lemma_straddle_last(hj, seq![']'], p2);
        lemma_avoids_concat(hj, seq![']'], p1);
        lemma_avoids_concat(hj, seq![']'], p2);
        assert(whole =~= hj + seq![']']);
        lemma_replace_id(whole, p1, seq![']']);
        lemma_replace_id(whole, p2, Seq::<char>::empty());
        assert(whole =~= flat_form(m));
    }
}

/// What `print_flat` writes of a tree: its texts in brackets, separated by
/// `, `, then, when it has children, `->` and their flat forms in
/// brackets, separated by `; ` (speakers, conditions and thrown events
/// are not written). This holds wherever no text holds a bracket and no
/// node's joined texts end with `; `.
pub proof fn lemma_print_flat_join_form(m: NodeModel)
    requires
        flat_tree_ok(m),
    ensures
        print_flat_model(m) == flat_form(m),
{
    lemma_flat_form(m);
}

} // verus!

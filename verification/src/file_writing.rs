//! What `print_file` writes for a tree that the file form carries: the
//! markers and blank lines it smooths out leave exactly the file form.

use vstd::prelude::*;

use crate::dialog::{
    game_event_name, throwable_event_name, ConditionModel, DialogTypeModel, GameEvent, NodeModel,
    ThrowableEvent,
};
use crate::dialog_file::parse_file;
use crate::dialog_print::{
    file_children, join, print_file_model, raw_condition_text, raw_line_text, raw_lines_text,
    smooth, speaker,
};
use crate::file_format::{
    children_text, condition_ok, condition_of, condition_text, events_text, file_text, hashes,
    karma_text, lemma_file_form_round_trip, line_text, lines_text, names_text, plain_char,
    plain_name, plain_text, speaker_name, text_of, tree_ok, trigger_char, trigger_names,
    triggers_text, written_events,
};
use crate::text::{int_to_decimal, is_digit, replace_all};
use crate::text_facts::{
    avoids, lemma_absent_avoids, lemma_avoids_concat, lemma_no_pair_concat,
    lemma_no_triple_concat, lemma_pair_avoids, lemma_replace_hit, lemma_replace_id,
    lemma_replace_split, lemma_straddle_first, lemma_straddle_last, lemma_triple_avoids,
    no_pair, no_straddle, no_triple,
};

verus! {

/// `c` appears nowhere in `s`.
pub open spec fn lacks(s: Seq<char>, c: char) -> bool {
    forall|i: int| 0 <= i < s.len() ==> s[i] != c
}

proof fn lemma_lacks_concat(u: Seq<char>, v: Seq<char>, c: char)
    requires
        lacks(u, c),
        lacks(v, c),
    ensures
        lacks(u + v, c),
{
    assert forall|i: int| 0 <= i < (u + v).len() implies (u + v)[i] != c by {
        if i < u.len() {
            assert((u + v)[i] == u[i]);
        } else {
            assert((u + v)[i] == v[i - u.len()]);
        }
    }
}

/// The string literals of the printer, character by character.
proof fn lemma_print_literals()
    ensures
        "\n"@ == seq!['\n'],
        "\n\n"@ == seq!['\n', '\n'],
        "\n\n\n"@ == seq!['\n', '\n', '\n'],
        "\n\nEND"@ == seq!['\n', '\n', 'E', 'N', 'D'],
        " \n"@ == seq![' ', '\n'],
        "#\n\n#"@ == seq!['#', '\n', '\n', '#'],
        "##"@ == seq!['#', '#'],
        "END#"@ == seq!['E', 'N', 'D', '#'],
        "#"@ == seq!['#'],
        " "@ == seq![' '],
        "- "@ == seq!['-', ' '],
        " | "@ == seq![' ', '|', ' '],
        "None"@ == seq!['N', 'o', 'n', 'e'],
        "event: "@ == seq!['e', 'v', 'e', 'n', 't', ':', ' '],
        ";"@ == seq![';'],
        ","@ == seq![','],
{
    reveal_strlit("\n");
    reveal_strlit("\n\n");
    reveal_strlit("\n\n\n");
    reveal_strlit("\n\nEND");
    reveal_strlit(" \n");
    reveal_strlit("#\n\n#");
    reveal_strlit("##");
    reveal_strlit("END#");
    reveal_strlit("#");
    reveal_strlit(" ");
    reveal_strlit("- ");
    reveal_strlit(" | ");
    reveal_strlit("None");
    reveal_strlit("karma: min,max; ");
    reveal_strlit("event: ");
    reveal_strlit(";");
    reveal_strlit(",");
    assert("\n"@ =~= seq!['\n']);
    assert("\n\n"@ =~= seq!['\n', '\n']);
    assert("\n\n\n"@ =~= seq!['\n', '\n', '\n']);
    assert("\n\nEND"@ =~= seq!['\n', '\n', 'E', 'N', 'D']);
    assert(" \n"@ =~= seq![' ', '\n']);
    assert("#\n\n#"@ =~= seq!['#', '\n', '\n', '#']);
    assert("##"@ =~= seq!['#', '#']);
    assert("END#"@ =~= seq!['E', 'N', 'D', '#']);
    assert("#"@ =~= seq!['#']);
    assert(" "@ =~= seq![' ']);
    assert("- "@ =~= seq!['-', ' ']);
    assert(" | "@ =~= seq![' ', '|', ' ']);
    assert("None"@ =~= seq!['N', 'o', 'n', 'e']);
    assert("event: "@ =~= seq!['e', 'v', 'e', 'n', 't', ':', ' ']);
    assert(";"@ =~= seq![';']);
    assert(","@ =~= seq![',']);
}

proof fn lemma_event_name_facts(e: GameEvent)
    ensures
        game_event_name(e).len() > 0,
        lacks(game_event_name(e), '\n'),
        lacks(game_event_name(e), '#'),
        lacks(game_event_name(e), ';'),
        lacks(game_event_name(e), ','),
        lacks(game_event_name(e), ' '),
{
    crate::file_format::lemma_event_name_chars(e);
    let s = game_event_name(e);
    reveal_strlit("BeatTheGame");
    reveal_strlit("FirstKill");
    reveal_strlit("AreaCleared");
    reveal_strlit("HasCharisma");
    reveal_strlit("HasFriend");
    match e {
        GameEvent::BeatTheGame => {
            assert(s =~= seq!['B', 'e', 'a', 't', 'T', 'h', 'e', 'G', 'a', 'm', 'e']);
        },
        GameEvent::HasCharisma => {
            assert(s =~= seq!['H', 'a', 's', 'C', 'h', 'a', 'r', 'i', 's', 'm', 'a']);
        },
        GameEvent::FirstKill => {
            assert(s =~= seq!['F', 'i', 'r', 's', 't', 'K', 'i', 'l', 'l']);
        },
        GameEvent::AreaCleared => {
            assert(s =~= seq!['A', 'r', 'e', 'a', 'C', 'l', 'e', 'a', 'r', 'e', 'd']);
        },
        GameEvent::HasFriend => {
            assert(s =~= seq!['H', 'a', 's', 'F', 'r', 'i', 'e', 'n', 'd']);
        },
    }
}

proof fn lemma_names_facts(evs: Seq<GameEvent>)
    requires
        evs.len() > 0,
    ensures
        names_text(evs).len() > 0,
        lacks(names_text(evs), '\n'),
        lacks(names_text(evs), '#'),
        lacks(names_text(evs), ';'),
        lacks(names_text(evs), ' '),
        names_text(evs).last() != ',',
    decreases evs.len(),
{
    lemma_print_literals();
    let e = evs.last();
    lemma_event_name_facts(e);
    let w = game_event_name(e);
    assert(evs.drop_last().len() == evs.len() - 1);
    if evs.len() == 1 {
        assert(evs[0] == e);
    } else {
        let pre = evs.drop_last();
        lemma_names_facts(pre);
        let n = names_text(pre);
        assert(names_text(evs) == n + seq![','] + w);
        lemma_lacks_concat(n, seq![','], '\n');
        lemma_lacks_concat(n + seq![','], w, '\n');
        lemma_lacks_concat(n, seq![','], '#');
        lemma_lacks_concat(n + seq![','], w, '#');
        lemma_lacks_concat(n, seq![','], ';');
        lemma_lacks_concat(n + seq![','], w, ';');
        lemma_lacks_concat(n, seq![','], ' ');
        lemma_lacks_concat(n + seq![','], w, ' ');
        assert(names_text(evs).last() == w.last());
        assert(w.last() == w[w.len() - 1]);
    }
}

proof fn lemma_decimal_facts(x: i32)
    ensures
        int_to_decimal(x as int).len() > 0,
        lacks(int_to_decimal(x as int), '\n'),
        lacks(int_to_decimal(x as int), '#'),
        lacks(int_to_decimal(x as int), ';'),
        lacks(int_to_decimal(x as int), ','),
        lacks(int_to_decimal(x as int), ' '),
        lacks(int_to_decimal(x as int), 'm'),
{
    crate::file_format::lemma_decimal_reads_back(x);
}

/// Facts about a text that several pieces share.
pub open spec fn simple_piece(s: Seq<char>) -> bool {
    &&& lacks(s, '\n')
    &&& lacks(s, '#')
    &&& no_pair(s, ',', ';')
}

proof fn lemma_simple_join(u: Seq<char>, c: char, v: Seq<char>)
    requires
        simple_piece(u),
        simple_piece(v),
        c != '\n' && c != '#',
        c == ',' ==> v.len() == 0 || v[0] != ';',
        c == ';' ==> u.len() == 0 || u.last() != ',',
    ensures
        simple_piece(u + seq![c] + v),
{
    let w = seq![c];
    assert(lacks(w, '\n') && lacks(w, '#'));
    lemma_lacks_concat(u, w, '\n');
    lemma_lacks_concat(u + w, v, '\n');
    lemma_lacks_concat(u, w, '#');
    lemma_lacks_concat(u, w, '#');
    lemma_lacks_concat(u + w, v, '#');
    assert(no_pair(w, ',', ';'));
    lemma_no_pair_concat(u, w, ',', ';');
    if u.len() + 1 > 0 && v.len() > 0 {
        assert((u + w).last() == c);
    }
    lemma_no_pair_concat(u + w, v, ',', ';');
}

proof fn lemma_simple_literal(s: Seq<char>)
    requires
        lacks(s, '\n'),
        lacks(s, '#'),
        lacks(s, ','),
    ensures
        simple_piece(s),
{
}

proof fn lemma_karma_text_facts(a: i32, b: i32)
    ensures
        simple_piece(karma_text(a, b)),
        karma_text(a, b).last() == ';',
        karma_text(a, b).len() > 0,
{
    lemma_decimal_facts(a);
    lemma_decimal_facts(b);
    let da = int_to_decimal(a as int);
    let db = int_to_decimal(b as int);
    let kw = seq!['k', 'a', 'r', 'm', 'a', ':'];
    assert(lacks(kw, '\n') && lacks(kw, '#') && lacks(kw, ',') && lacks(kw, ';'));
    assert(no_pair(kw, ',', ';'));
    lemma_simple_literal(da);
    lemma_simple_literal(db);
    lemma_simple_join(kw, ' ', da);
    let x1 = kw + seq![' '] + da;
    assert(db[0] != ';');
    lemma_simple_join(x1, ',', db);
    let x2 = x1 + seq![','] + db;
    assert(x2.last() == db.last());
    assert(db.last() == db[db.len() - 1]);
    lemma_simple_literal(Seq::<char>::empty());
    lemma_simple_join(x2, ';', Seq::<char>::empty());
    assert(karma_text(a, b) =~= x2 + seq![';'] + Seq::<char>::empty());
}

proof fn lemma_events_text_facts(evs: Seq<GameEvent>)
    requires
        evs.len() > 0,
    ensures
        simple_piece(events_text(evs)),
        events_text(evs).last() == ';',
{
    lemma_names_facts(evs);
    let n = names_text(evs);
    let ew = seq!['e', 'v', 'e', 'n', 't', ':'];
    assert(lacks(ew, '\n') && lacks(ew, '#') && lacks(ew, ',') && lacks(ew, 'm'));
    lemma_simple_literal(ew);
    assert(no_pair(n, ',', ';')) by {
        assert forall|i: int| 0 <= i < n.len() - 1 implies !(#[trigger] n[i] == ',' && n[i + 1]
            == ';') by {
            assert(n[i + 1] != ';');
        }
    }
    assert(simple_piece(n));
    lemma_simple_join(ew, ' ', n);
    let x1 = ew + seq![' '] + n;
    assert(x1.last() == n.last());
    assert(n.last() == n[n.len() - 1]);
    lemma_simple_literal(Seq::<char>::empty());
    lemma_simple_join(x1, ';', Seq::<char>::empty());
    assert(events_text(evs) =~= x1 + seq![';'] + Seq::<char>::empty());
}

proof fn lemma_condition_facts(c: Option<ConditionModel>)
    requires
        condition_ok(c),
    ensures
        simple_piece(condition_text(c)),
        simple_piece(raw_condition_text(c)),
        condition_text(c).len() > 0,
        condition_text(c).last() != ' ' && condition_text(c).last() != ',',
        raw_condition_text(c).len() > 0,
        raw_condition_text(c).last() != ',',
        raw_condition_text(c) == condition_text(c) || raw_condition_text(c) == condition_text(c)
            + seq![' '],
{
    match c {
        None => {
            let s = seq!['N', 'o', 'n', 'e'];
            assert(lacks(s, '\n') && lacks(s, '#') && lacks(s, ',') && lacks(s, 'm'));
            lemma_simple_literal(s);
        },
        Some(cm) => {
            match (cm.karma_threshold, cm.event) {
                (Some((a, b)), None) => {
                    lemma_karma_text_facts(a, b);
                    let k = karma_text(a, b);
                    lemma_simple_literal(Seq::<char>::empty());
                    lemma_simple_join(k, ' ', Seq::<char>::empty());
                    assert(k + seq![' '] =~= k + seq![' '] + Seq::<char>::empty());
                },
                (None, Some(evs)) => {
                    lemma_events_text_facts(evs);
                },
                (Some((a, b)), Some(evs)) => {
                    lemma_karma_text_facts(a, b);
                    lemma_events_text_facts(evs);
                    lemma_simple_join(karma_text(a, b), ' ', events_text(evs));
                    assert((karma_text(a, b) + seq![' '] + events_text(evs)).last() == ';');
                },
                (None, None) => {},
            }
        },
    }
}

proof fn lemma_lacks_no_pair(s: Seq<char>, a: char, b: char)
    requires
        lacks(s, b) || lacks(s, a),
    ensures
        no_pair(s, a, b),
{
    assert forall|i: int| 0 <= i < s.len() - 1 implies !(#[trigger] s[i] == a && s[i + 1] == b) by {
        assert(s[i] != a || s[i + 1] != b);
    }
}

proof fn lemma_plain_text_facts(t: Seq<char>)
    requires
        plain_text(t),
    ensures
        lacks(t, '\n') && lacks(t, '#'),
        no_pair(t, ',', ';') ==> simple_piece(t),
{
    assert forall|i: int| 0 <= i < t.len() implies t[i] != '\n' && t[i] != '#' by {
        assert(plain_char(t[i]));
    }
}

/// A text around which the pieces `u` and `v` lack `c`.
proof fn lemma_lacks_join(u: Seq<char>, x: char, v: Seq<char>, c: char)
    requires
        lacks(u, c),
        lacks(v, c),
        x != c,
    ensures
        lacks(u + seq![x] + v, c),
{
    assert(lacks(seq![x], c));
    lemma_lacks_concat(u, seq![x], c);
    lemma_lacks_concat(u + seq![x], v, c);
}

/// The opening of a choice line: `- text | `.
pub open spec fn choice_head(t: Seq<char>) -> Seq<char> {
    seq!['-', ' '] + t + seq![' ', '|', ' ']
}

proof fn lemma_choice_head_facts(t: Seq<char>)
    requires
        plain_text(t),
    ensures
        lacks(choice_head(t), '\n') && lacks(choice_head(t), '#'),
        no_pair(t, ',', ';') ==> simple_piece(choice_head(t)),
        choice_head(t).last() == ' ',
        choice_head(t)[0] == '-',
{
    lemma_plain_text_facts(t);
    let h0 = seq!['-'];
    let bar = seq!['|'];
    let empty = Seq::<char>::empty();
    let x = h0 + seq![' '] + t;
    let y = x + seq![' '] + bar;
    assert(choice_head(t) =~= y + seq![' '] + empty);
    assert(lacks(h0, '\n') && lacks(h0, '#') && lacks(bar, '\n') && lacks(bar, '#'));
    assert(lacks(empty, '\n') && lacks(empty, '#'));
    lemma_lacks_join(h0, ' ', t, '\n');
    lemma_lacks_join(x, ' ', bar, '\n');
    lemma_lacks_join(y, ' ', empty, '\n');
    lemma_lacks_join(h0, ' ', t, '#');
    lemma_lacks_join(x, ' ', bar, '#');
    lemma_lacks_join(y, ' ', empty, '#');
    if no_pair(t, ',', ';') {
        lemma_lacks_no_pair(h0, ',', ';');
        lemma_lacks_no_pair(bar, ',', ';');
        lemma_lacks_no_pair(empty, ',', ';');
        lemma_simple_join(h0, ' ', t);
        lemma_simple_join(x, ' ', bar);
        lemma_simple_join(y, ' ', empty);
    }
}

/// What an element line looks like, written and then smoothed.
#[verifier::spinoff_prover]
#[verifier::rlimit(40)]
proof fn lemma_line_facts(e: DialogTypeModel)
    requires
        plain_text(text_of(e)),
        condition_ok(condition_of(e)),
    ensures
        line_text(e).len() >= 4,
        line_text(e)[0] == '-',
        line_text(e).last() == '\n',
        line_text(e)[line_text(e).len() - 2] != '\n',
        line_text(e)[line_text(e).len() - 2] != ' ',
        lacks(line_text(e).drop_last(), '\n'),
        lacks(line_text(e), '#'),
        no_pair(line_text(e), ' ', '\n'),
        replace_all(raw_line_text(e), seq![' ', '\n'], seq!['\n']) == line_text(e),
        raw_line_text(e).len() > 0,
        raw_line_text(e)[0] == '-',
        raw_line_text(e).last() == '\n',
        no_pair(text_of(e), ',', ';') ==> no_pair(raw_line_text(e), ',', ';'),
{
    let t = text_of(e);
    lemma_plain_text_facts(t);
    let nl = seq!['\n'];
    let empty = Seq::<char>::empty();
    let body: Seq<char> = match e {
        DialogTypeModel::Text(_) => seq!['-', ' '] + t,
        DialogTypeModel::Choice { condition, .. } => choice_head(t) + condition_text(condition),
    };
    let rbody: Seq<char> = match e {
        DialogTypeModel::Text(_) => seq!['-', ' '] + t,
        DialogTypeModel::Choice { condition, .. } => choice_head(t) + raw_condition_text(
            condition,
        ),
    };
    let l = line_text(e);
    let rl = raw_line_text(e);
    assert(lacks(nl, '#') && lacks(nl, ','));
    lemma_lacks_no_pair(nl, ',', ';');
    match e {
        DialogTypeModel::Text(_) => {
            let h0 = seq!['-'];
            assert(lacks(h0, '\n') && lacks(h0, '#'));
            lemma_lacks_join(h0, ' ', t, '\n');
            lemma_lacks_join(h0, ' ', t, '#');
            assert(body =~= h0 + seq![' '] + t);
            assert(body.last() == t.last());
            assert(t.last() == t[t.len() - 1]);
            if no_pair(t, ',', ';') {
                lemma_lacks_no_pair(h0, ',', ';');
                lemma_simple_join(h0, ' ', t);
            }
        },
        DialogTypeModel::Choice { condition, .. } => {
            lemma_choice_head_facts(t);
            lemma_condition_facts(condition);
            let h = choice_head(t);
            let ct = condition_text(condition);
            let rt = raw_condition_text(condition);
            lemma_lacks_concat(h, ct, '\n');
            lemma_lacks_concat(h, ct, '#');
            lemma_lacks_concat(h, rt, '\n');
            lemma_lacks_concat(h, rt, '#');
            if no_pair(t, ',', ';') {
                lemma_no_pair_concat(h, rt, ',', ';');
            }
            assert(body.last() == ct.last());
            assert(rbody.last() == rt.last());
            assert(ct.last() == ct[ct.len() - 1]);
            assert(rt.last() == rt[rt.len() - 1]);
        },
    }
    assert(l =~= body + nl);
    assert(rl =~= rbody + nl);
    assert(l.drop_last() =~= body);
    lemma_lacks_concat(body, nl, '#');
    lemma_lacks_no_pair(body, ' ', '\n');
    lemma_no_pair_concat(body, nl, ' ', '\n');
    if no_pair(t, ',', ';') {
        lemma_no_pair_concat(rbody, nl, ',', ';');
    }
    lemma_pair_avoids(l, seq![' ', '\n'], 0);
    if rl == l {
        lemma_replace_id(l, seq![' ', '\n'], seq!['\n']);
    } else {
        assert(rl =~= body + seq![' ', '\n']);
        lemma_absent_avoids(body, seq![' ', '\n'], 1);
        lemma_replace_id(body, seq![' ', '\n'], seq!['\n']);
        lemma_straddle_last(body, seq![' ', '\n'], seq![' ', '\n']);
        lemma_replace_split(body, seq![' ', '\n'], seq![' ', '\n'], seq!['\n']);
        lemma_replace_hit(empty, seq![' ', '\n'], seq!['\n']);
        assert(seq![' ', '\n'] + empty =~= seq![' ', '\n']);
        assert(replace_all(empty, seq![' ', '\n'], seq!['\n']) =~= empty);
        assert(seq!['\n'] + empty =~= nl);
    }
}

proof fn lemma_newline_last_only(l: Seq<char>)
    requires
        l.len() > 0,
        lacks(l.drop_last(), '\n'),
    ensures
        no_pair(l, '\n', '\n'),
{
    assert forall|i: int| 0 <= i < l.len() - 1 implies !(#[trigger] l[i] == '\n' && l[i + 1]
        == '\n') by {
        assert(l[i] == l.drop_last()[i]);
    }
}

/// The element lines of a node, written and smoothed.
proof fn lemma_lines_facts(ds: Seq<DialogTypeModel>)
    requires
        ds.len() > 0,
        forall|i: int|
            0 <= i < ds.len() ==> plain_text(text_of(#[trigger] ds[i])) && condition_ok(
                condition_of(ds[i]),
            ),
    ensures
        lines_text(ds).len() >= 4,
        lines_text(ds)[0] == '-',
        lines_text(ds).last() == '\n',
        lines_text(ds)[lines_text(ds).len() - 3] != '\n',
        lines_text(ds)[lines_text(ds).len() - 4] != '\n',
        lines_text(ds)[lines_text(ds).len() - 2] != '\n',
        lines_text(ds)[lines_text(ds).len() - 2] != ' ',
        no_pair(lines_text(ds), '\n', '\n'),
        lacks(lines_text(ds), '#'),
        no_pair(lines_text(ds), ' ', '\n'),
        replace_all(raw_lines_text(ds), seq![' ', '\n'], seq!['\n']) == lines_text(ds),
        raw_lines_text(ds).len() > 0,
        raw_lines_text(ds).last() == '\n',
    decreases ds.len(),
{
    let e = ds.last();
    assert(plain_text(text_of(ds[ds.len() - 1])));
    lemma_line_facts(e);
    let l = line_text(e);
    let rl = raw_line_text(e);
    lemma_newline_last_only(l);
    assert(l[l.len() - 3] == l.drop_last()[l.len() - 3]);
    assert(l[l.len() - 4] == l.drop_last()[l.len() - 4]);
    let pre = ds.drop_last();
    if ds.len() == 1 {
        assert(pre.len() == 0);
        assert(lines_text(pre) =~= Seq::<char>::empty());
        assert(raw_lines_text(pre) =~= Seq::<char>::empty());
        assert(lines_text(ds) == lines_text(pre) + l);
        assert(raw_lines_text(ds) == raw_lines_text(pre) + rl);
        assert(lines_text(ds) =~= l);
        assert(raw_lines_text(ds) =~= rl);
    } else {
        assert forall|i: int| 0 <= i < pre.len() implies plain_text(text_of(#[trigger] pre[i]))
            && condition_ok(condition_of(pre[i])) by {
            assert(pre[i] == ds[i]);
        }
        lemma_lines_facts(pre);
        let l0 = lines_text(pre);
        let r0 = raw_lines_text(pre);
        lemma_no_pair_concat(l0, l, '\n', '\n');
        lemma_lacks_concat(l0, l, '#');
        lemma_no_pair_concat(l0, l, ' ', '\n');
        let big = lines_text(ds);
        assert(big == l0 + l);
        assert(big[big.len() - 2] == l[l.len() - 2]);
        assert(big[big.len() - 3] == l[l.len() - 3]);
        assert(big[big.len() - 4] == l[l.len() - 4]);
        assert(big.last() == l.last());
        lemma_straddle_last(r0, rl, seq![' ', '\n']);
        lemma_replace_split(r0, rl, seq![' ', '\n'], seq!['\n']);
        assert(raw_lines_text(ds).last() == rl.last());
    }
}

proof fn lemma_hashes(d: nat)
    ensures
        hashes(d).len() == d,
        forall|i: int| 0 <= i < d ==> hashes(d)[i] == '#',
    decreases d,
{
    if d > 0 {
        lemma_hashes((d - 1) as nat);
    }
}

proof fn lemma_pair_newline_triple(s: Seq<char>, c: char)
    requires
        no_pair(s, '\n', '\n'),
    ensures
        no_triple(s, '\n', '\n', c),
{
    assert forall|i: int| 0 <= i < s.len() - 2 implies !(#[trigger] s[i] == '\n' && s[i + 1]
        == '\n' && s[i + 2] == c) by {
        assert(!(s[i] == '\n' && s[i + 1] == '\n'));
    }
}

/// The header line of a node followed by its blank line.
pub open spec fn header_text(d: nat, name: Seq<char>) -> Seq<char> {
    hashes(d) + seq![' '] + name + seq!['\n', '\n']
}

proof fn lemma_header_facts(d: nat, name: Seq<char>)
    requires
        d >= 1,
        plain_name(name),
    ensures
        header_text(d, name).len() >= 4,
        header_text(d, name)[0] == '#',
        header_text(d, name).last() == '\n',
        header_text(d, name)[header_text(d, name).len() - 2] == '\n',
        no_pair(header_text(d, name), ' ', '\n'),
        no_pair(header_text(d, name), '#', '\n'),
        no_pair(header_text(d, name), 'D', '#'),
        no_pair(name, ',', ';') ==> no_pair(header_text(d, name), ',', ';'),
        no_triple(header_text(d, name), '\n', '\n', '\n'),
        no_triple(header_text(d, name), '\n', '\n', 'E'),
        no_triple(header_text(d, name), '\n', '\n', '-'),
{
    lemma_hashes(d);
    assert forall|i: int| 0 <= i < name.len() implies name[i] != '\n' && name[i] != '#' by {
        assert(crate::file_format::name_char(name[i]));
    }
    let h = hashes(d);
    let sp = seq![' '];
    let nn = seq!['\n', '\n'];
    let p = header_text(d, name);
    assert(lacks(h, ' ') && lacks(h, '\n') && lacks(h, 'D') && lacks(h, ',') && lacks(h, 'm'));
    assert(lacks(sp, '\n') && lacks(sp, '#') && lacks(sp, ',') && lacks(sp, 'm'));
    lemma_lacks_no_pair(h, ' ', '\n');
    lemma_lacks_no_pair(h, '#', '\n');
    lemma_lacks_no_pair(h, 'D', '#');
    lemma_lacks_no_pair(h, ',', ';');
    lemma_lacks_no_pair(sp, ' ', '\n');
    lemma_lacks_no_pair(sp, '#', '\n');
    lemma_lacks_no_pair(sp, 'D', '#');
    lemma_lacks_no_pair(sp, ',', ';');
    lemma_lacks_no_pair(name, ' ', '\n');
    lemma_lacks_no_pair(name, '#', '\n');
    lemma_lacks_no_pair(name, 'D', '#');
    assert(lacks(nn, ' ') && lacks(nn, '#') && lacks(nn, ','));
    assert(lacks(name, '\n') && lacks(name, '#'));
    lemma_lacks_no_pair(nn, ' ', '\n');
    lemma_lacks_no_pair(nn, '#', '\n');
    lemma_lacks_no_pair(nn, 'D', '#');
    lemma_lacks_no_pair(nn, ',', ';');
    let x1 = h + sp;
    let x2 = x1 + name;
    assert(p == x2 + nn);
    lemma_no_pair_concat(h, sp, ' ', '\n');
    lemma_no_pair_concat(x1, name, ' ', '\n');
    lemma_no_pair_concat(x2, nn, ' ', '\n');
    lemma_no_pair_concat(h, sp, '#', '\n');
    lemma_no_pair_concat(x1, name, '#', '\n');
    lemma_no_pair_concat(x2, nn, '#', '\n');
    lemma_no_pair_concat(h, sp, 'D', '#');
    lemma_no_pair_concat(x1, name, 'D', '#');
    lemma_no_pair_concat(x2, nn, 'D', '#');
    if no_pair(name, ',', ';') {
        lemma_no_pair_concat(h, sp, ',', ';');
        lemma_no_pair_concat(x1, name, ',', ';');
        lemma_no_pair_concat(x2, nn, ',', ';');
    }
    assert(x2.last() == name.last());
    assert(name.last() == name[name.len() - 1]);
    assert(lacks(x2, '\n')) by {
        lemma_lacks_concat(h, sp, '\n');
        lemma_lacks_concat(x1, name, '\n');
    }
    assert forall|c: char| no_triple(p, '\n', '\n', c) by {
        assert forall|i: int| 0 <= i < p.len() - 2 implies !(#[trigger] p[i] == '\n' && p[i + 1]
            == '\n' && p[i + 2] == c) by {
            assert(p[i] == x2[i]);
        }
    }
}

/// A node's file form without its last newline, as the smoothing passes
/// need it: a header first, no blank before a line end, no `#` before a
/// line end or after `D`, no two blank lines in a row, and no line that
/// starts with `E` after a blank line.
pub open spec fn tidy_body(c: Seq<char>) -> bool {
    &&& c.len() >= 1
    &&& c[0] == '#'
    &&& c.last() != '\n' && c.last() != ' ' && c.last() != '#'
    &&& no_pair(c, ' ', '\n') && no_pair(c, '#', '\n') && no_pair(c, 'D', '#')
    &&& no_triple(c, '\n', '\n', '\n') && no_triple(c, '\n', '\n', 'E')
}

/// A node's file form as the smoothing passes need it (see `tidy_body`).
pub open spec fn tidy(c: Seq<char>) -> bool {
    &&& c.len() >= 2
    &&& c.last() == '\n'
    &&& tidy_body(c.drop_last())
}

/// The texts without their last character.
pub open spec fn bodies(cs: Seq<Seq<char>>) -> Seq<Seq<char>> {
    Seq::new(cs.len(), |i: int| cs[i].drop_last())
}

proof fn lemma_join_drop_newline(cs: Seq<Seq<char>>, s: Seq<char>)
    requires
        cs.len() > 0,
        forall|i: int| 0 <= i < cs.len() ==> (#[trigger] cs[i]).len() > 0 && cs[i].last() == '\n',
    ensures
        join(cs, s) == join(bodies(cs), seq!['\n'] + s) + seq!['\n'],
    decreases cs.len(),
{
    let bs = bodies(cs);
    let last = cs.last();
    assert(cs[cs.len() - 1] == last);
    assert(last =~= last.drop_last() + seq!['\n']);
    if cs.len() == 1 {
        assert(join(bs, seq!['\n'] + s) == bs[0]);
    } else {
        let pre = cs.drop_last();
        assert forall|i: int| 0 <= i < pre.len() implies (#[trigger] pre[i]).len() > 0
            && pre[i].last() == '\n' by {
            assert(pre[i] == cs[i]);
        }
        lemma_join_drop_newline(pre, s);
        assert(bodies(pre) =~= bs.drop_last());
        assert(bs.last() == last.drop_last());
        assert(join(cs, s) =~= join(bs, seq!['\n'] + s) + seq!['\n']);
    }
}

proof fn lemma_join_bodies_facts(bs: Seq<Seq<char>>, sep: Seq<char>)
    requires
        bs.len() > 0,
        forall|i: int| 0 <= i < bs.len() ==> tidy_body(#[trigger] bs[i]),
        1 <= sep.len() <= 3,
        forall|j: int| 0 <= j < sep.len() ==> sep[j] == '\n',
    ensures
        join(bs, sep).len() >= 1,
        join(bs, sep)[0] == '#',
        join(bs, sep).last() == bs.last().last(),
        no_pair(join(bs, sep), ' ', '\n'),
        no_pair(join(bs, sep), '#', '\n'),
        no_pair(join(bs, sep), 'D', '#'),
        sep.len() <= 2 ==> no_triple(join(bs, sep), '\n', '\n', '\n'),
        sep.len() <= 2 ==> no_triple(join(bs, sep), '\n', '\n', 'E'),
    decreases bs.len(),
{
    let b = bs.last();
    assert(tidy_body(bs[bs.len() - 1]));
    if bs.len() == 1 {
        assert(join(bs, sep) == bs[0]);
    } else {
        let pre = bs.drop_last();
        assert forall|i: int| 0 <= i < pre.len() implies tidy_body(#[trigger] pre[i]) by {
            assert(pre[i] == bs[i]);
        }
        lemma_join_bodies_facts(pre, sep);
        let a = join(pre, sep);
        assert(join(bs, sep) == a + sep + b);
        assert(lacks(sep, ' ') && lacks(sep, '#') && lacks(sep, 'D'));
        lemma_lacks_no_pair(sep, ' ', '\n');
        lemma_lacks_no_pair(sep, '#', '\n');
        lemma_lacks_no_pair(sep, 'D', '#');
        lemma_no_pair_concat(a, sep, ' ', '\n');
        lemma_no_pair_concat(a + sep, b, ' ', '\n');
        lemma_no_pair_concat(a, sep, '#', '\n');
        lemma_no_pair_concat(a + sep, b, '#', '\n');
        lemma_no_pair_concat(a, sep, 'D', '#');
        lemma_no_pair_concat(a + sep, b, 'D', '#');
        assert((a + sep).last() == '\n');
        assert((a + sep + b).last() == b.last());
        assert((a + sep + b)[0] == a[0]);
        if sep.len() <= 2 {
            assert(no_triple(sep, '\n', '\n', '\n') && no_triple(sep, '\n', '\n', 'E'));
            lemma_no_triple_concat(a, sep, '\n', '\n', '\n');
            lemma_no_triple_concat(a, sep, '\n', '\n', 'E');
            assert((a + sep)[(a + sep).len() - 1] == '\n');
            lemma_no_triple_concat(a + sep, b, '\n', '\n', '\n');
            lemma_no_triple_concat(a + sep, b, '\n', '\n', 'E');
        }
    }
}

proof fn lemma_join_replace3(bs: Seq<Seq<char>>)
    requires
        bs.len() > 0,
        forall|i: int| 0 <= i < bs.len() ==> tidy_body(#[trigger] bs[i]),
    ensures
        replace_all(join(bs, seq!['\n', '\n', '\n']), seq!['\n', '\n', '\n'], seq!['\n', '\n'])
            == join(bs, seq!['\n', '\n']),
        join(bs, seq!['\n', '\n', '\n']).last() == bs.last().last(),
    decreases bs.len(),
{
    let t3 = seq!['\n', '\n', '\n'];
    let nn = seq!['\n', '\n'];
    let b = bs.last();
    assert(tidy_body(bs[bs.len() - 1]));
    lemma_triple_avoids(b, t3, 0);
    lemma_replace_id(b, t3, nn);
    if bs.len() == 1 {
        assert(join(bs, t3) == bs[0]);
        assert(join(bs, nn) == bs[0]);
    } else {
        let pre = bs.drop_last();
        assert forall|i: int| 0 <= i < pre.len() implies tidy_body(#[trigger] pre[i]) by {
            assert(pre[i] == bs[i]);
        }
        lemma_join_replace3(pre);
        let a = join(pre, t3);
        assert(join(bs, t3) =~= a + (t3 + b));
        lemma_straddle_last(a, t3 + b, t3);
        lemma_replace_split(a, t3 + b, t3, nn);
        lemma_replace_hit(b, t3, nn);
        assert(join(bs, nn) =~= join(pre, nn) + (nn + b));
        assert((a + (t3 + b)).last() == b.last());
    }
}

proof fn lemma_no_pair_sub(s: Seq<char>, a: char, b: char, lo: int, hi: int)
    requires
        no_pair(s, a, b),
        0 <= lo <= hi <= s.len(),
    ensures
        no_pair(s.subrange(lo, hi), a, b),
{
    let t = s.subrange(lo, hi);
    assert forall|i: int| 0 <= i < t.len() - 1 implies !(#[trigger] t[i] == a && t[i + 1] == b) by {
        assert(t[i] == s[lo + i] && t[i + 1] == s[lo + i + 1]);
    }
}

proof fn lemma_lacks_sub(s: Seq<char>, c: char, lo: int, hi: int)
    requires
        lacks(s, c),
        0 <= lo <= hi <= s.len(),
    ensures
        lacks(s.subrange(lo, hi), c),
{
    let t = s.subrange(lo, hi);
    assert forall|i: int| 0 <= i < t.len() implies t[i] != c by {
        assert(t[i] == s[lo + i]);
    }
}

/// The header and the element lines, smoothed, without the last line end.
proof fn lemma_head_facts(p: Seq<char>, lp: Seq<char>, d: nat, name: Seq<char>, l: Seq<char>)
    requires
        d >= 1,
        plain_name(name),
        p == header_text(d, name),
        l.len() >= 4,
        l[0] == '-',
        l.last() == '\n',
        l[l.len() - 2] != '\n' && l[l.len() - 2] != ' ',
        l[l.len() - 3] != '\n' && l[l.len() - 4] != '\n',
        no_pair(l, '\n', '\n'),
        lacks(l, '#'),
        no_pair(l, ' ', '\n'),
        lp == l.drop_last(),
    ensures
        tidy_body(p + lp),
        no_triple(p + lp, '\n', '\n', '\n'),
        (p + lp).last() == l[l.len() - 2],
        (p + lp)[(p + lp).len() - 2] != '\n',
        (p + lp)[(p + lp).len() - 3] != '\n',
{
    lemma_header_facts(d, name);
    assert(lp =~= l.subrange(0, l.len() - 1));
    lemma_no_pair_sub(l, '\n', '\n', 0, l.len() - 1);
    lemma_no_pair_sub(l, ' ', '\n', 0, l.len() - 1);
    lemma_lacks_sub(l, '#', 0, l.len() - 1);
    lemma_lacks_no_pair(lp, '#', '\n');
    lemma_lacks_no_pair(lp, 'D', '#');
    lemma_pair_newline_triple(lp, '\n');
    lemma_pair_newline_triple(lp, 'E');
    let x = p + lp;
    assert(lp[0] == '-' && lp[1] == l[1]);
    lemma_no_pair_concat(p, lp, ' ', '\n');
    lemma_no_pair_concat(p, lp, '#', '\n');
    lemma_no_pair_concat(p, lp, 'D', '#');
    lemma_no_triple_concat(p, lp, '\n', '\n', '\n');
    lemma_no_triple_concat(p, lp, '\n', '\n', 'E');
    assert(x[0] == p[0]);
    assert(x.last() == lp.last());
    assert(lp.last() == l[l.len() - 2]);
    assert(l[l.len() - 2] != '#');
    assert(x[x.len() - 2] == l[l.len() - 3]);
    assert(x[x.len() - 3] == l[l.len() - 4]);
}

/// Requirements shared by the two smoothing lemmas.
pub open spec fn node_pieces(p: Seq<char>, lr: Seq<char>, l: Seq<char>, d: nat, name: Seq<char>) -> bool {
    &&& d >= 1
    &&& plain_name(name)
    &&& p == header_text(d, name)
    &&& l.len() >= 4
    &&& l[0] == '-'
    &&& l.last() == '\n'
    &&& l[l.len() - 2] != '\n' && l[l.len() - 2] != ' '
    &&& l[l.len() - 3] != '\n' && l[l.len() - 4] != '\n'
    &&& no_pair(l, '\n', '\n')
    &&& lacks(l, '#')
    &&& no_pair(l, ' ', '\n')
    &&& lr.len() > 0
    &&& lr.last() == '\n'
    &&& replace_all(lr, seq![' ', '\n'], seq!['\n']) == l
}

/// The first two passes: the blank before a line end goes; nothing else
/// changes.
proof fn lemma_first_passes(
    p: Seq<char>,
    lr: Seq<char>,
    l: Seq<char>,
    d: nat,
    name: Seq<char>,
    j: Seq<char>,
)
    requires
        node_pieces(p, lr, l, d, name),
        no_pair(j, ' ', '\n'),
        no_pair(j, '#', '\n'),
    ensures
        replace_all(
            replace_all(p + lr + seq!['\n', '\n', 'E', 'N', 'D'] + j, seq![' ', '\n'], seq!['\n']),
            seq!['#', '\n', '\n', '#'],
            seq!['#', '#'],
        ) == p + l + seq!['\n', '\n', 'E', 'N', 'D'] + j,
{
    lemma_header_facts(d, name);
    let sn = seq![' ', '\n'];
    let n1 = seq!['\n'];
    let e5 = seq!['\n', '\n', 'E', 'N', 'D'];
    assert(p + lr + e5 + j =~= p + (lr + (e5 + j)));
    lemma_straddle_last(p, lr + (e5 + j), sn);
    lemma_replace_split(p, lr + (e5 + j), sn, n1);
    lemma_pair_avoids(p, sn, 0);
    lemma_replace_id(p, sn, n1);
    lemma_straddle_last(lr, e5 + j, sn);
    lemma_replace_split(lr, e5 + j, sn, n1);
    lemma_straddle_last(e5, j, sn);
    lemma_replace_split(e5, j, sn, n1);
    lemma_absent_avoids(e5, sn, 0);
    lemma_replace_id(e5, sn, n1);
    lemma_pair_avoids(j, sn, 0);
    lemma_replace_id(j, sn, n1);
    let r1 = p + l + e5 + j;
    assert(p + (l + (e5 + j)) =~= r1);
    lemma_lacks_no_pair(l, '#', '\n');
    assert(lacks(e5, '#'));
    lemma_lacks_no_pair(e5, '#', '\n');
    lemma_no_pair_concat(p, l, '#', '\n');
    lemma_no_pair_concat(p + l, e5, '#', '\n');
    lemma_no_pair_concat(p + l + e5, j, '#', '\n');
    lemma_pair_avoids(r1, seq!['#', '\n', '\n', '#'], 0);
    lemma_replace_id(r1, seq!['#', '\n', '\n', '#'], seq!['#', '#']);
}

/// A node without children: the end marker goes, leaving its lines.
proof fn lemma_smooth_leaf(p: Seq<char>, lr: Seq<char>, l: Seq<char>, d: nat, name: Seq<char>)
    requires
        node_pieces(p, lr, l, d, name),
    ensures
        smooth(p + lr + seq!['\n', '\n', 'E', 'N', 'D'] + Seq::<char>::empty()) == p + l,
        tidy(p + l),
{
    let e5 = seq!['\n', '\n', 'E', 'N', 'D'];
    let t3 = seq!['\n', '\n', '\n'];
    let nn = seq!['\n', '\n'];
    let n1 = seq!['\n'];
    let end3 = seq!['E', 'N', 'D'];
    let empty = Seq::<char>::empty();
    lemma_lacks_no_pair(empty, ' ', '\n');
    lemma_lacks_no_pair(empty, '#', '\n');
    lemma_first_passes(p, lr, l, d, name, empty);
    let lp = l.drop_last();
    lemma_head_facts(p, lp, d, name, l);
    let x = p + lp;
    let r2 = p + l + e5 + empty;
    // third pass
    assert(r2 =~= x + (t3 + end3));
    lemma_straddle_last(x, t3 + end3, t3);
    lemma_replace_split(x, t3 + end3, t3, nn);
    lemma_triple_avoids(x, t3, 0);
    lemma_replace_id(x, t3, nn);
    lemma_replace_hit(end3, t3, nn);
    lemma_absent_avoids(end3, t3, 0);
    lemma_replace_id(end3, t3, nn);
    let r3 = x + (nn + end3);
    assert(r3 =~= x + e5);
    // fourth pass
    assert(lacks(e5, '#'));
    lemma_lacks_no_pair(e5, 'D', '#');
    lemma_no_pair_concat(x, e5, 'D', '#');
    lemma_pair_avoids(x + e5, seq!['E', 'N', 'D', '#'], 2);
    lemma_replace_id(x + e5, seq!['E', 'N', 'D', '#'], seq!['#']);
    // fifth pass
    assert(no_straddle(x, e5 + empty, e5)) by {
        assert forall|i: int| x.len() - e5.len() < i < x.len() implies !crate::text::occurs_at(
            x + (e5 + empty),
            i,
            e5,
        ) by {
            let s = x + (e5 + empty);
            if crate::text::occurs_at(s, i, e5) {
                crate::text_facts::lemma_occurs_char(s, i, e5, 0);
                crate::text_facts::lemma_occurs_char(s, i, e5, 1);
                if i >= x.len() - 3 {
                    assert(s[i] == x[i]);
                } else {
                    assert(s[i + 1] == x[x.len() - 3]);
                }
            }
        }
    }
    lemma_replace_split(x, e5 + empty, e5, n1);
    lemma_triple_avoids(x, e5, 0);
    lemma_replace_id(x, e5, n1);
    lemma_replace_hit(empty, e5, n1);
    assert(x + e5 =~= x + (e5 + empty));
    assert(replace_all(empty, e5, n1) =~= empty);
    assert(x + (n1 + empty) =~= p + l);
    assert((p + l).drop_last() =~= x);
}

/// A node with children: the end marker and the extra blank lines go.
#[verifier::spinoff_prover]
#[verifier::rlimit(60)]
proof fn lemma_smooth_inner(
    p: Seq<char>,
    lr: Seq<char>,
    l: Seq<char>,
    d: nat,
    name: Seq<char>,
    bs: Seq<Seq<char>>,
)
    requires
        node_pieces(p, lr, l, d, name),
        bs.len() > 0,
        forall|i: int| 0 <= i < bs.len() ==> tidy_body(#[trigger] bs[i]),
    ensures
        smooth(
            p + lr + seq!['\n', '\n', 'E', 'N', 'D'] + (join(bs, seq!['\n', '\n', '\n']) + seq![
                '\n',
            ]),
        ) == p + l.drop_last() + seq!['\n', '\n'] + join(bs, seq!['\n', '\n']) + seq!['\n'],
        tidy(p + l.drop_last() + seq!['\n', '\n'] + join(bs, seq!['\n', '\n']) + seq!['\n']),
{
    let e5 = seq!['\n', '\n', 'E', 'N', 'D'];
    let t3 = seq!['\n', '\n', '\n'];
    let nn = seq!['\n', '\n'];
    let n1 = seq!['\n'];
    let end3 = seq!['E', 'N', 'D'];
    let endh = seq!['E', 'N', 'D', '#'];
    let jt = join(bs, t3);
    let jd = join(bs, nn);
    let j = jt + n1;
    let b = bs.last();
    assert(tidy_body(bs[bs.len() - 1]));
    lemma_join_bodies_facts(bs, t3);
    lemma_join_bodies_facts(bs, nn);
    lemma_join_replace3(bs);
    // the joined children, as the first passes see them
    assert(lacks(n1, ' ') && lacks(n1, '#') && lacks(n1, 'D'));
    lemma_lacks_no_pair(n1, ' ', '\n');
    lemma_lacks_no_pair(n1, '#', '\n');
    lemma_lacks_no_pair(n1, 'D', '#');
    lemma_no_pair_concat(jt, n1, ' ', '\n');
    lemma_no_pair_concat(jt, n1, '#', '\n');
    lemma_first_passes(p, lr, l, d, name, j);
    let lp = l.drop_last();
    lemma_head_facts(p, lp, d, name, l);
    let x = p + lp;
    // third pass
    let r2 = p + l + e5 + j;
    assert(r2 =~= x + (t3 + (end3 + (jt + n1))));
    lemma_straddle_last(x, t3 + (end3 + (jt + n1)), t3);
    lemma_replace_split(x, t3 + (end3 + (jt + n1)), t3, nn);
    lemma_triple_avoids(x, t3, 0);
    lemma_replace_id(x, t3, nn);
    lemma_replace_hit(end3 + (jt + n1), t3, nn);
    lemma_straddle_last(end3, jt + n1, t3);
    lemma_replace_split(end3, jt + n1, t3, nn);
    lemma_absent_avoids(end3, t3, 0);
    lemma_replace_id(end3, t3, nn);
    lemma_straddle_last(jt, n1, t3);
    lemma_replace_split(jt, n1, t3, nn);
    assert(avoids(n1, t3));
    lemma_replace_id(n1, t3, nn);
    let r3 = x + (nn + (end3 + (jd + n1)));
    // fourth pass
    let y = x + nn;
    let rest = jd.drop_first() + n1;
    assert(r3 =~= y + (endh + rest));
    assert(lacks(nn, 'D') && lacks(nn, '#') && lacks(nn, ' '));
    lemma_lacks_no_pair(nn, 'D', '#');
    lemma_no_pair_concat(x, nn, 'D', '#');
    lemma_straddle_last(y, endh + rest, endh);
    lemma_replace_split(y, endh + rest, endh, seq!['#']);
    lemma_pair_avoids(y, endh, 2);
    lemma_replace_id(y, endh, seq!['#']);
    lemma_replace_hit(rest, endh, seq!['#']);
    assert(jd.drop_first() =~= jd.subrange(1, jd.len() as int));
    lemma_no_pair_sub(jd, 'D', '#', 1, jd.len() as int);
    lemma_no_pair_concat(jd.drop_first(), n1, 'D', '#');
    lemma_pair_avoids(rest, endh, 2);
    lemma_replace_id(rest, endh, seq!['#']);
    let r4 = y + jd + n1;
    assert(y + (seq!['#'] + rest) =~= r4);
    // fifth pass: nothing left to replace
    lemma_lacks_no_pair(nn, ' ', '\n');
    lemma_lacks_no_pair(nn, '#', '\n');
    lemma_no_triple_concat(x, nn, '\n', '\n', 'E');
    lemma_no_triple_concat(x, nn, '\n', '\n', '\n');
    assert(y[y.len() - 1] == '\n' && y[y.len() - 2] == '\n');
    lemma_no_triple_concat(y, jd, '\n', '\n', 'E');
    lemma_no_triple_concat(y, jd, '\n', '\n', '\n');
    let body = y + jd;
    assert(body.last() == jd.last());
    assert(no_triple(n1, '\n', '\n', 'E'));
    lemma_no_triple_concat(body, n1, '\n', '\n', 'E');
    lemma_triple_avoids(r4, e5, 0);
    lemma_replace_id(r4, e5, n1);
    // the result is tidy
    lemma_no_pair_concat(x, nn, ' ', '\n');
    lemma_no_pair_concat(x, nn, '#', '\n');
    lemma_no_pair_concat(y, jd, ' ', '\n');
    lemma_no_pair_concat(y, jd, '#', '\n');
    lemma_no_pair_concat(y, jd, 'D', '#');
    assert(body[0] == x[0]);
    assert(r4.drop_last() =~= body);
    assert(p + l.drop_last() + nn + jd + n1 =~= r4);
}

/// The file forms of the children of `t`, one level deeper.
pub open spec fn child_texts(t: NodeModel, d: nat) -> Seq<Seq<char>> {
    Seq::new(t.children.len(), |i: int| file_text(t.children[i], d + 1))
}

proof fn lemma_children_text(t: NodeModel, d: nat, k: int)
    requires
        1 <= k <= t.children.len(),
    ensures
        children_text(t, d, k) == seq!['\n'] + join(child_texts(t, d).take(k), seq!['\n']),
    decreases k,
{
    let cs = child_texts(t, d);
    if k == 1 {
        assert(children_text(t, d, 0) =~= Seq::<char>::empty());
        assert(join(cs.take(1), seq!['\n']) == cs.take(1)[0]);
        assert(children_text(t, d, 1) =~= seq!['\n'] + join(cs.take(1), seq!['\n']));
    } else {
        lemma_children_text(t, d, k - 1);
        assert(cs.take(k).drop_last() =~= cs.take(k - 1));
        assert(cs.take(k).last() == file_text(t.children[k - 1], d + 1));
        assert(children_text(t, d, k) =~= seq!['\n'] + join(cs.take(k), seq!['\n']));
    }
}

/// The line of the events a node throws.
proof fn lemma_trigger_names_facts(evs: Seq<ThrowableEvent>)
    requires
        evs.len() > 0,
    ensures
        trigger_names(evs).len() >= 3,
        forall|i: int|
            0 <= i < trigger_names(evs).len() ==> #[trigger] trigger_names(evs)[i] != '\n'
                && trigger_names(evs)[i] != '#' && trigger_names(evs)[i] != ' ',
    decreases evs.len(),
{
    let e = evs.last();
    crate::file_format::lemma_throwable_name_chars(e);
    let w = throwable_event_name(e);
    reveal_strlit("FightEvent");
    reveal_strlit("HasFriend");
    assert(w.len() >= 3);
    assert forall|i: int| 0 <= i < w.len() implies w[i] != '\n' && w[i] != '#' && w[i] != ' ' by {
        assert(trigger_char(w[i]));
    }
    if evs.len() == 1 {
        assert(evs[0] == e);
    } else {
        let pre = evs.drop_last();
        lemma_trigger_names_facts(pre);
        let n = trigger_names(pre);
        let t = trigger_names(evs);
        assert(t == n + seq![','] + w);
        assert forall|i: int| 0 <= i < t.len() implies #[trigger] t[i] != '\n' && t[i] != '#'
            && t[i] != ' ' by {
            if i < n.len() {
                assert(t[i] == n[i]);
            } else if i > n.len() {
                assert(t[i] == w[i - n.len() - 1]);
            }
        }
    }
}

/// A node's element lines and the line of the events it throws, as the
/// smoothing passes need them.
proof fn lemma_body_facts(ds: Seq<DialogTypeModel>, evs: Seq<ThrowableEvent>)
    requires
        ds.len() > 0,
        forall|i: int|
            0 <= i < ds.len() ==> plain_text(text_of(#[trigger] ds[i])) && condition_ok(
                condition_of(ds[i]),
            ),
    ensures
        ({
            let l = lines_text(ds) + triggers_text(evs);
            let lr = raw_lines_text(ds) + triggers_text(evs);
            &&& l.len() >= 4
            &&& l[0] == '-'
            &&& l.last() == '\n'
            &&& l[l.len() - 2] != '\n' && l[l.len() - 2] != ' '
            &&& l[l.len() - 3] != '\n' && l[l.len() - 4] != '\n'
            &&& no_pair(l, '\n', '\n')
            &&& lacks(l, '#')
            &&& no_pair(l, ' ', '\n')
            &&& lr.len() > 0
            &&& lr.last() == '\n'
            &&& replace_all(lr, seq![' ', '\n'], seq!['\n']) == l
        }),
{
    lemma_lines_facts(ds);
    let l0 = lines_text(ds);
    let r0 = raw_lines_text(ds);
    let tt = triggers_text(evs);
    let sn = seq![' ', '\n'];
    if evs.len() == 0 {
        assert(l0 + tt =~= l0);
        assert(r0 + tt =~= r0);
    } else {
        lemma_trigger_names_facts(evs);
        let n = trigger_names(evs);
        let tb = seq!['-', '>', ' '] + n;
        assert(tt == tb + seq!['\n']);
        assert(lacks(tb, '\n') && lacks(tb, '#')) by {
            assert forall|i: int| 0 <= i < tb.len() implies tb[i] != '\n' && tb[i] != '#' by {
                if i >= 3 {
                    assert(tb[i] == n[i - 3]);
                }
            }
        }
        assert(no_pair(tt, ' ', '\n')) by {
            assert forall|i: int| 0 <= i < tt.len() - 1 implies !(#[trigger] tt[i] == ' ' && tt[i
                + 1] == '\n') by {
                if i == tt.len() - 2 {
                    assert(tt[i] == n[n.len() - 1]);
                } else {
                    assert(tt[i + 1] == tb[i + 1]);
                }
            }
        }
        assert(no_pair(tt, '\n', '\n')) by {
            assert forall|i: int| 0 <= i < tt.len() - 1 implies !(#[trigger] tt[i] == '\n' && tt[i
                + 1] == '\n') by {
                assert(tt[i] == tb[i]);
            }
        }
        assert(lacks(tt, '#')) by {
            assert forall|i: int| 0 <= i < tt.len() implies tt[i] != '#' by {
                if i < tb.len() {
                    assert(tt[i] == tb[i]);
                }
            }
        }
        let l = l0 + tt;
        lemma_no_pair_concat(l0, tt, '\n', '\n');
        lemma_no_pair_concat(l0, tt, ' ', '\n');
        lemma_lacks_concat(l0, tt, '#');
        assert(l[0] == l0[0]);
        assert(l[l.len() - 2] == n[n.len() - 1]);
        assert(l[l.len() - 3] == n[n.len() - 2]);
        assert(l[l.len() - 4] == n[n.len() - 3]);
        lemma_straddle_last(r0, tt, sn);
        lemma_replace_split(r0, tt, sn, seq!['\n']);
        lemma_pair_avoids(tt, sn, 0);
        lemma_replace_id(tt, sn, seq!['\n']);
    }
}

/// What `print_file` writes of a tree that the file form carries is its
/// file form.
#[verifier::spinoff_prover]
#[verifier::rlimit(80)]
pub proof fn lemma_print_is_file_text(t: NodeModel, d: nat)
    requires
        tree_ok(t),
        d >= 1,
    ensures
        print_file_model(t, hashes(d)) == file_text(t, d),
        tidy(file_text(t, d)),
    decreases t,
{
    let n = t.children.len();
    let name = speaker_name(t);
    let ds = t.dialog_type;
    let cs = child_texts(t, d);
    assert forall|i: int| 0 <= i < n implies print_file_model(
        #[trigger] t.children[i],
        hashes(d) + seq!['#'],
    ) == cs[i] && tidy(cs[i]) by {
        assert(tree_ok(t.children[i]));
        lemma_print_is_file_text(t.children[i], d + 1);
        assert(hashes(d) + seq!['#'] =~= hashes(d + 1));
    }
    assert(file_children(t, hashes(d)) =~= cs);
    let p = header_text(d, name);
    lemma_header_facts(d, name);
    assert(hashes(d) + speaker(t) + seq!['\n', '\n'] =~= p);
    lemma_body_facts(ds, t.trigger_event);
    let lr = raw_lines_text(ds) + triggers_text(t.trigger_event);
    let l = lines_text(ds) + triggers_text(t.trigger_event);
    let e5 = seq!['\n', '\n', 'E', 'N', 'D'];
    let j = join(cs, seq!['\n', '\n']);
    let r0 = p + lr + e5 + j;
    assert(hashes(d) + speaker(t) + seq!['\n', '\n'] + raw_lines_text(ds) + triggers_text(
        t.trigger_event,
    ) + e5 + j =~= r0);
    assert(print_file_model(t, hashes(d)) == smooth(r0));
    assert(node_pieces(p, lr, l, d, name));
    let ft = file_text(t, d);
    assert(ft =~= p + l + children_text(t, d, n as int));
    if n == 0 {
        assert(j =~= Seq::<char>::empty());
        assert(children_text(t, d, 0) =~= Seq::<char>::empty());
        lemma_smooth_leaf(p, lr, l, d, name);
        assert(r0 =~= p + lr + e5 + Seq::<char>::empty());
        assert(ft =~= p + l);
    } else {
        let bs = bodies(cs);
        assert forall|i: int| 0 <= i < n implies (#[trigger] cs[i]).len() > 0 && cs[i].last()
            == '\n' by {
            assert(tidy(cs[i]));
        }
        assert forall|i: int| 0 <= i < bs.len() implies tidy_body(#[trigger] bs[i]) by {
            assert(tidy(cs[i]));
        }
        lemma_join_drop_newline(cs, seq!['\n', '\n']);
        lemma_join_drop_newline(cs, seq!['\n']);
        assert(seq!['\n'] + seq!['\n', '\n'] =~= seq!['\n', '\n', '\n']);
        assert(seq!['\n'] + seq!['\n'] =~= seq!['\n', '\n']);
        lemma_smooth_inner(p, lr, l, d, name, bs);
        lemma_children_text(t, d, n as int);
        assert(cs.take(n as int) =~= cs);
        assert(l =~= l.drop_last() + seq!['\n']);
        assert(ft =~= p + l.drop_last() + seq!['\n', '\n'] + join(bs, seq!['\n', '\n']) + seq![
            '\n',
        ]);
    }
}

/// Reading back what `print_file` writes gives the tree back, for every
/// tree that the file form carries (see `tree_ok`).
pub proof fn lemma_print_then_read(t: NodeModel)
    requires
        tree_ok(t),
    ensures
        parse_file(print_file_model(t, seq!['#'])) == Some(t),
{
    assert(hashes(0) =~= Seq::<char>::empty());
    assert(hashes(1) =~= seq!['#']);
    lemma_print_is_file_text(t, 1);
    lemma_file_form_round_trip(t);
}

/// The tree with the id of every speaker set to 0 (the file form does not
/// write ids).
pub open spec fn ids_cleared(t: NodeModel) -> NodeModel
    decreases t,
{
    NodeModel {
        character: match t.character {
            Some((_id, name)) => Some((0u32, name)),
            None => None,
        },
        children: Seq::new(
            t.children.len(),
            |i: int|
                if 0 <= i < t.children.len() {
                    ids_cleared(t.children[i])
                } else {
                    t
                },
        ),
        ..t
    }
}

proof fn lemma_ids_not_written(t: NodeModel, h: Seq<char>)
    ensures
        print_file_model(ids_cleared(t), h) == print_file_model(t, h),
    decreases t,
{
    let u = ids_cleared(t);
    assert forall|i: int| 0 <= i < t.children.len() implies #[trigger] file_children(u, h)[i]
        == file_children(t, h)[i] by {
        lemma_ids_not_written(t.children[i], h + seq!['#']);
    }
    assert(file_children(u, h) =~= file_children(t, h));
    assert(speaker(u) == speaker(t));
}

/// Printing what was read from what `print_file` wrote gives the same text
/// again, whatever the ids of the speakers (which are not written), for
/// every tree that the file form carries up to those ids.
pub proof fn lemma_read_then_print(t: NodeModel)
    requires
        tree_ok(ids_cleared(t)),
    ensures
        parse_file(print_file_model(t, seq!['#'])) == Some(ids_cleared(t)),
        print_file_model(ids_cleared(t), seq!['#']) == print_file_model(t, seq!['#']),
{
    lemma_ids_not_written(t, seq!['#']);
    lemma_print_then_read(ids_cleared(t));
}

} // verus!

//! Laws of the configuration file: what saving and reading back, and switching
//! an include twice, give.
use vstd::prelude::*;

use crate::rack::{
    classify, device_word, first_include, include_word, includes_path, lemma_first_include_same, parse_rack, parse_statement, render_data, render_rack,
    render_statement, toggle_rack, toggled, DataView, StatementView,
};
use crate::text::{
    find_char, lemma_find_char, lemma_trim_is_trimmed, is_trimmed, is_ws, lemma_find_char_at, lemma_split_join,
    lemma_trim_range, lemma_trim_trimmed, split_lines, trim,
};

verus! {

/// Switching the same include twice gives back the configuration it started from,
/// and when that include exists the two answers are opposite.
pub proof fn law_toggle_twice(r: Seq<StatementView>, p: Seq<char>)
    ensures
        toggle_rack(toggle_rack(r, p).0, p).0 == r,
        first_include(r, p) is Some ==> toggle_rack(toggle_rack(r, p).0, p).1 != toggle_rack(r, p).1,
        first_include(r, p) is None ==> !toggle_rack(r, p).1 && !toggle_rack(toggle_rack(r, p).0, p).1,
{
    match first_include(r, p) {
        Some(i) => {
            crate::rack::lemma_first_include(r, p);
            let t = r.update(i, toggled(r[i]));
            assert forall|j: int| 0 <= j < t.len() implies includes_path(#[trigger] t[j], p) == includes_path(r[j], p) by {
                if j == i {
                    assert(t[j] == toggled(r[i]));
                }
            }
            lemma_first_include_same(t, r, p);
            assert(toggled(toggled(r[i])) == r[i]);
            assert(t.update(i, toggled(t[i])) =~= r);
            match r[i] {
                StatementView::Command { enabled, data } => {},
                StatementView::Comment(_) => {},
            }
        },
        None => {},
    }
}

/// A non-empty piece on one line with no whitespace at its ends.
pub open spec fn is_clean_word(s: Seq<char>) -> bool {
    s.len() > 0 && is_trimmed(s) && !s.contains('\n')
}

/// A comment that reads back as a comment: trimmed, on one line, and not of the
/// form `name: value` with a non-empty name and value.
pub open spec fn is_plain_comment(c: Seq<char>) -> bool {
    &&& is_trimmed(c)
    &&& !c.contains('\n')
    &&& match find_char(c, ':') {
        Some(i) => trim(c.take(i)).len() == 0 || trim(c.skip(i + 1)).len() == 0,
        None => true,
    }
}

/// A statement in the form that reading a line produces (leaving out one shape:
/// a switched-on command whose name begins with `#`, which writes as a switched-off one).
pub open spec fn is_canonical(st: StatementView) -> bool {
    match st {
        StatementView::Comment(c) => is_plain_comment(c),
        StatementView::Command { enabled, data } => match data {
            DataView::Device(v) => is_clean_word(v),
            DataView::Include(v) => is_clean_word(v),
            DataView::Unknown(name, value) => {
                &&& is_clean_word(name)
                &&& is_clean_word(value)
                &&& !name.contains(':')
                &&& name != device_word()
                &&& name != include_word()
                &&& (enabled ==> name[0] != '#')
            },
        },
    }
}

proof fn lemma_concat_no_char(a: Seq<char>, b: Seq<char>, c: char)
    requires
        !a.contains(c),
        !b.contains(c),
    ensures
        !(a + b).contains(c),
{
    assert forall|j: int| 0 <= j < (a + b).len() implies (a + b)[j] != c by {
        if j < a.len() {
            assert((a + b)[j] == a[j]);
            if a[j] == c {
                assert(a.contains(c));
            }
        } else {
            assert((a + b)[j] == b[j - a.len()]);
            if b[j - a.len()] == c {
                assert(b.contains(c));
            }
        }
    }
}

proof fn lemma_no_char_literal(s: Seq<char>, c: char)
    requires
        forall|j: int| 0 <= j < s.len() ==> s[j] != c,
    ensures
        !s.contains(c),
{
}

/// A space in front of a trimmed piece trims away.
proof fn lemma_trim_after_space(c: Seq<char>)
    requires
        is_trimmed(c),
    ensures
        trim(seq![' '] + c) == c,
{
    let s = seq![' '] + c;
    assert(is_ws(' '));
    assert(s[0] == ' ');
    if c.len() == 0 {
        lemma_trim_range(s, 1, 1);
        assert(s.subrange(1, 1) =~= c);
    } else {
        assert(s[1] == c[0]);
        assert(s[s.len() - 1] == c.last());
        lemma_trim_range(s, 1, s.len() as int);
        assert(s.subrange(1, s.len() as int) =~= c);
    }
}

/// What reading gives for the line `w: v`.
proof fn lemma_word_value(w: Seq<char>, v: Seq<char>)
    requires
        is_clean_word(w),
        !w.contains(':'),
        is_clean_word(v),
    ensures
        ({
            let l = w + seq![':', ' '] + v;
            &&& l.len() > 0
            &&& l[0] == w[0]
            &&& is_trimmed(l)
            &&& !l.contains('\n')
            &&& find_char(l, ':') == Some(w.len() as int)
            &&& trim(l.take(w.len() as int)) == w
            &&& trim(l.skip(w.len() as int + 1)) == v
        }),
{
    let l = w + seq![':', ' '] + v;
    let n = w.len() as int;
    assert(l[0] == w[0]);
    assert(l[l.len() - 1] == v.last());
    assert forall|j: int| 0 <= j < n implies l[j] != ':' by {
        assert(l[j] == w[j]);
        if w[j] == ':' {
            assert(w.contains(':'));
        }
    }
    assert(l[n] == ':');
    lemma_find_char_at(l, ':', n);
    assert(l.take(n) =~= w);
    lemma_trim_trimmed(w);
    assert(l.skip(n + 1) =~= seq![' '] + v);
    lemma_trim_after_space(v);
    lemma_no_char_literal(seq![':', ' '], '\n');
    lemma_concat_no_char(w, seq![':', ' '], '\n');
    lemma_concat_no_char(w + seq![':', ' '], v, '\n');
}

proof fn lemma_keyword_words()
    ensures
        is_clean_word(device_word()),
        !device_word().contains(':'),
        is_clean_word(include_word()),
        !include_word().contains(':'),
        device_word() != include_word(),
{
    let d = device_word();
    let i = include_word();
    assert(!is_ws(d[0]) && !is_ws(d.last()));
    assert(!is_ws(i[0]) && !is_ws(i.last()));
    lemma_no_char_literal(d, '\n');
    lemma_no_char_literal(d, ':');
    lemma_no_char_literal(i, '\n');
    lemma_no_char_literal(i, ':');
    assert(d[0] != i[0]);
}

/// What reading gives for a written command line (`l`, or `l` switched off with `# `),
/// when `l` is trimmed and does not itself begin with `#`.
proof fn lemma_read_body(l: Seq<char>, enabled: bool)
    requires
        l.len() > 0,
        is_trimmed(l),
        enabled ==> l[0] != '#',
    ensures
        ({
            let x = if enabled { l } else { seq!['#', ' '] + l };
            let is_comment = x.len() > 0 && x[0] == '#';
            &&& is_comment == !enabled
            &&& trim(if is_comment { x.drop_first() } else { x }) == l
        }),
{
    if enabled {
        lemma_trim_trimmed(l);
    } else {
        let x = seq!['#', ' '] + l;
        assert(x.drop_first() =~= seq![' '] + l);
        lemma_trim_after_space(l);
    }
}

/// A canonical statement is written as a non-empty line without newlines that reads back as itself.
pub proof fn lemma_statement_round_trip(st: StatementView)
    requires
        is_canonical(st),
    ensures
        render_statement(st).len() > 0,
        !render_statement(st).contains('\n'),
        parse_statement(render_statement(st)) == st,
{
    lemma_keyword_words();
    match st {
        StatementView::Comment(c) => {
            let x = seq!['#', ' '] + c;
            assert(x[0] == '#');
            assert(x.drop_first() =~= seq![' '] + c);
            lemma_trim_after_space(c);
            lemma_no_char_literal(seq!['#', ' '], '\n');
            lemma_concat_no_char(seq!['#', ' '], c, '\n');
        },
        StatementView::Command { enabled, data } => {
            let (w, v) = match data {
                DataView::Device(v) => (device_word(), v),
                DataView::Include(v) => (include_word(), v),
                DataView::Unknown(name, value) => (name, value),
            };
            lemma_word_value(w, v);
            let l = w + seq![':', ' '] + v;
            assert(render_data(data) == l);
            assert(enabled ==> l[0] != '#') by {
                match data {
                    DataView::Device(_) => {
                        assert(device_word()[0] == 'D');
                    },
                    DataView::Include(_) => {
                        assert(include_word()[0] == 'I');
                    },
                    DataView::Unknown(_, _) => {},
                }
            }
            lemma_read_body(l, enabled);
            assert(classify(w, v) == data);
            if !enabled {
                lemma_no_char_literal(seq!['#', ' '], '\n');
                lemma_concat_no_char(seq!['#', ' '], l, '\n');
            }
        },
    }
}

/// Writing a configuration of canonical statements and reading the text back
/// gives the same statements.
pub proof fn law_save_then_load(r: Seq<StatementView>)
    requires
        forall|i: int| 0 <= i < r.len() ==> is_canonical(#[trigger] r[i]),
    ensures
        parse_rack(render_rack(r)) == r,
{
    let ls = r.map_values(|s: StatementView| render_statement(s));
    assert forall|i: int| 0 <= i < ls.len() implies #[trigger] ls[i].len() > 0 && !ls[i].contains('\n') by {
        lemma_statement_round_trip(r[i]);
    }
    lemma_split_join(ls);
    assert forall|i: int| 0 <= i < r.len() implies parse_statement(ls[i]) == r[i] by {
        lemma_statement_round_trip(r[i]);
    }
    assert(parse_rack(render_rack(r)) =~= r);
}

/// A switched-on command whose name begins with `#` (the one shape that does not
/// read back as itself once written).
pub open spec fn is_hash_named_command(st: StatementView) -> bool {
    match st {
        StatementView::Command { enabled, data: DataView::Unknown(name, _) } => enabled && name.len() > 0
            && name[0] == '#',
        _ => false,
    }
}

proof fn lemma_piece_no_char(s: Seq<char>, a: int, b: int, c: char)
    requires
        0 <= a <= b <= s.len(),
        !s.contains(c),
    ensures
        !s.subrange(a, b).contains(c),
{
    assert forall|j: int| 0 <= j < b - a implies s.subrange(a, b)[j] != c by {
        assert(s.subrange(a, b)[j] == s[a + j]);
        if s[a + j] == c {
            assert(s.contains(c));
        }
    }
}

proof fn lemma_trim_no_char(s: Seq<char>, c: char)
    requires
        !s.contains(c),
    ensures
        !trim(s).contains(c),
        is_trimmed(trim(s)),
{
    lemma_trim_is_trimmed(s);
    let (a, b) = choose|a: int, b: int| 0 <= a <= b <= s.len() && #[trigger] s.subrange(a, b) == trim(s);
    lemma_piece_no_char(s, a, b, c);
}

/// The lines of any text hold no newline.
pub proof fn lemma_lines_no_newline(s: Seq<char>)
    ensures
        forall|i: int| 0 <= i < split_lines(s).len() ==> !(#[trigger] split_lines(s)[i]).contains('\n'),
    decreases s.len(),
{
    if s.len() > 0 {
        lemma_find_char(s, '\n');
        match find_char(s, '\n') {
            None => {
                assert forall|j: int| 0 <= j < s.len() implies s[j] != '\n' by {}
                lemma_no_char_literal(s, '\n');
            },
            Some(k) => {
                let first = s.take(k);
                assert forall|j: int| 0 <= j < first.len() implies first[j] != '\n' by {
                    assert(first[j] == s[j]);
                }
                lemma_no_char_literal(first, '\n');
                lemma_lines_no_newline(s.skip(k + 1));
                let rest = split_lines(s.skip(k + 1));
                assert forall|i: int| 0 <= i < split_lines(s).len() implies !(#[trigger] split_lines(s)[i]).contains('\n') by {
                    if i > 0 {
                        assert(split_lines(s)[i] == rest[i - 1]);
                    }
                }
            },
        }
    }
}

/// Every line without newlines reads as a canonical statement, or as a switched-on
/// command whose name begins with `#`.
pub proof fn lemma_parse_statement_canonical(line: Seq<char>)
    requires
        !line.contains('\n'),
    ensures
        is_canonical(parse_statement(line)) || is_hash_named_command(parse_statement(line)),
{
    lemma_keyword_words();
    let is_comment = line.len() > 0 && line[0] == '#';
    let x = if is_comment { line.drop_first() } else { line };
    if is_comment {
        assert(line.drop_first() =~= line.subrange(1, line.len() as int));
        lemma_piece_no_char(line, 1, line.len() as int, '\n');
    }
    let body = trim(x);
    lemma_trim_no_char(x, '\n');
    lemma_find_char(body, ':');
    match find_char(body, ':') {
        None => {},
        Some(i) => {
            let head = body.take(i);
            let tail = body.skip(i + 1);
            assert(head =~= body.subrange(0, i));
            assert(tail =~= body.subrange(i + 1, body.len() as int));
            lemma_piece_no_char(body, 0, i, '\n');
            lemma_piece_no_char(body, i + 1, body.len() as int, '\n');
            assert forall|j: int| 0 <= j < head.len() implies head[j] != ':' by {}
            lemma_no_char_literal(head, ':');
            lemma_trim_no_char(head, '\n');
            lemma_trim_no_char(head, ':');
            lemma_trim_no_char(tail, '\n');
        },
    }
}

/// Reading a text, writing it, and reading that again gives what the first reading gave,
/// unless the text has a switched-on command whose name begins with `#`.
pub proof fn law_load_save_load(text: Seq<char>)
    requires
        forall|i: int| 0 <= i < parse_rack(text).len() ==> !is_hash_named_command(#[trigger] parse_rack(text)[i]),
    ensures
        parse_rack(render_rack(parse_rack(text))) == parse_rack(text),
{
    let r = parse_rack(text);
    lemma_lines_no_newline(text);
    assert forall|i: int| 0 <= i < r.len() implies is_canonical(#[trigger] r[i]) by {
        assert(r[i] == parse_statement(split_lines(text)[i]));
        lemma_parse_statement_canonical(split_lines(text)[i]);
    }
    law_save_then_load(r);
}

/// The statements after switching the includes of `ps`, one after another.
pub open spec fn toggle_all(r: Seq<StatementView>, ps: Seq<Seq<char>>) -> Seq<StatementView>
    decreases ps.len(),
{
    if ps.len() == 0 {
        r
    } else {
        toggle_all(toggle_rack(r, ps[0]).0, ps.drop_first())
    }
}

/// Switching an include keeps every statement canonical: only an `Include:` command
/// changes, and only in its switch.
pub proof fn lemma_toggle_keeps_canonical(r: Seq<StatementView>, p: Seq<char>)
    requires
        forall|i: int| 0 <= i < r.len() ==> is_canonical(#[trigger] r[i]),
    ensures
        forall|i: int|
            0 <= i < toggle_rack(r, p).0.len() ==> is_canonical(#[trigger] toggle_rack(r, p).0[i]),
{
    crate::rack::lemma_first_include(r, p);
    match first_include(r, p) {
        Some(k) => {
            let t = toggle_rack(r, p).0;
            assert forall|i: int| 0 <= i < t.len() implies is_canonical(#[trigger] t[i]) by {
                if i == k {
                    assert(includes_path(r[k], p));
                    match r[k] {
                        StatementView::Command { enabled, data } => {
                            assert(data is Include);
                        },
                        StatementView::Comment(_) => {},
                    }
                } else {
                    assert(t[i] == r[i]);
                }
            }
        },
        None => {},
    }
}

/// A configuration read from a text with no switched-on command named with `#`, then
/// switched at any includes, writes and reads back as itself.
pub proof fn law_toggle_save_load(text: Seq<char>, ps: Seq<Seq<char>>)
    requires
        forall|i: int| 0 <= i < parse_rack(text).len() ==> !is_hash_named_command(#[trigger] parse_rack(text)[i]),
    ensures
        parse_rack(render_rack(toggle_all(parse_rack(text), ps))) == toggle_all(parse_rack(text), ps),
{
    let r = parse_rack(text);
    lemma_lines_no_newline(text);
    assert forall|i: int| 0 <= i < r.len() implies is_canonical(#[trigger] r[i]) by {
        assert(r[i] == parse_statement(split_lines(text)[i]));
        lemma_parse_statement_canonical(split_lines(text)[i]);
    }
    lemma_toggle_all_canonical(r, ps);
    law_save_then_load(toggle_all(r, ps));
}

proof fn lemma_toggle_all_canonical(r: Seq<StatementView>, ps: Seq<Seq<char>>)
    requires
        forall|i: int| 0 <= i < r.len() ==> is_canonical(#[trigger] r[i]),
    ensures
        forall|i: int| 0 <= i < toggle_all(r, ps).len() ==> is_canonical(#[trigger] toggle_all(r, ps)[i]),
    decreases ps.len(),
{
    if ps.len() > 0 {
        lemma_toggle_keeps_canonical(r, ps[0]);
        lemma_toggle_all_canonical(toggle_rack(r, ps[0]).0, ps.drop_first());
        assert(toggle_all(r, ps) == toggle_all(toggle_rack(r, ps[0]).0, ps.drop_first()));
    }
}

} // verus!

//! The EqualizerAPO `config.txt` file: its statements, how a text is read into
//! them, how they are written back, and switching an `Include:` on or off.
use vstd::prelude::*;

use crate::paths::{path_eq, paths_equal};
use crate::text::{
    chars_of, find_char, find_char_in, join_lines, lemma_split_lines_step, range_equals,
    split_lines, substring, trim, trim_bounds,
};

verus! {

/// What a command line of the configuration says.
#[derive(Debug, PartialEq, Eq)]
pub enum CommandData {
    Device(String),
    Include(String),
    Unknown { name: String, value: String },
}

/// A `Name: value` line, which may be switched off by a leading `#`.
#[derive(Debug, PartialEq, Eq)]
pub struct CommandStatement {
    pub enabled: bool,
    pub data: CommandData,
}

/// One line of the configuration.
#[derive(Debug, PartialEq, Eq)]
pub enum Statement {
    Command(CommandStatement),
    Comment(String),
}

/// EqualizerAPO `config.txt` file.
#[derive(Debug)]
pub struct RackFile {
    statements: Vec<Statement>,
}

/// The mathematical content of a [`CommandData`].
pub enum DataView {
    Device(Seq<char>),
    Include(Seq<char>),
    Unknown(Seq<char>, Seq<char>),
}

/// The mathematical content of a [`Statement`].
pub enum StatementView {
    Command { enabled: bool, data: DataView },
    Comment(Seq<char>),
}

impl View for CommandData {
    type V = DataView;

    open spec fn view(&self) -> DataView {
        match self {
            CommandData::Device(d) => DataView::Device(d@),
            CommandData::Include(p) => DataView::Include(p@),
            CommandData::Unknown { name, value } => DataView::Unknown(name@, value@),
        }
    }
}

impl View for Statement {
    type V = StatementView;

    open spec fn view(&self) -> StatementView {
        match self {
            Statement::Command(c) => StatementView::Command { enabled: c.enabled, data: c.data@ },
            Statement::Comment(t) => StatementView::Comment(t@),
        }
    }
}

impl View for RackFile {
    type V = Seq<StatementView>;

    closed spec fn view(&self) -> Seq<StatementView> {
        self.statements@.map_values(|s: Statement| s@)
    }
}

/// The command name `Device`.
pub open spec fn device_word() -> Seq<char> {
    seq!['D', 'e', 'v', 'i', 'c', 'e']
}

/// The command name `Include`.
pub open spec fn include_word() -> Seq<char> {
    seq!['I', 'n', 'c', 'l', 'u', 'd', 'e']
}

/// The command that a name and a value make.
pub open spec fn classify(name: Seq<char>, value: Seq<char>) -> DataView {
    if name == device_word() {
        DataView::Device(value)
    } else if name == include_word() {
        DataView::Include(value)
    } else {
        DataView::Unknown(name, value)
    }
}

/// How one line of the file reads: a leading `#` switches a command off (and is dropped),
/// the rest is trimmed and split at its first `:`; a command needs a non-empty
/// trimmed name and value, and anything else is kept as a comment.
pub open spec fn parse_statement(line: Seq<char>) -> StatementView {
    let is_comment = line.len() > 0 && line[0] == '#';
    let body = trim(if is_comment { line.drop_first() } else { line });
    match find_char(body, ':') {
        Some(i) => {
            let name = trim(body.take(i));
            let value = trim(body.skip(i + 1));
            if name.len() == 0 || value.len() == 0 {
                StatementView::Comment(body)
            } else {
                StatementView::Command { enabled: !is_comment, data: classify(name, value) }
            }
        },
        None => StatementView::Comment(body),
    }
}

/// The statements that a whole text reads as, one per line.
pub open spec fn parse_rack(text: Seq<char>) -> Seq<StatementView> {
    split_lines(text).map_values(|l: Seq<char>| parse_statement(l))
}

/// The line a command is written as, without the switch-off mark.
pub open spec fn render_data(d: DataView) -> Seq<char> {
    match d {
        DataView::Device(v) => device_word() + seq![':', ' '] + v,
        DataView::Include(v) => include_word() + seq![':', ' '] + v,
        DataView::Unknown(name, value) => name + seq![':', ' '] + value,
    }
}

/// The line a statement is written as.
pub open spec fn render_statement(s: StatementView) -> Seq<char> {
    match s {
        StatementView::Command { enabled, data } => if enabled {
            render_data(data)
        } else {
            seq!['#', ' '] + render_data(data)
        },
        StatementView::Comment(c) => seq!['#', ' '] + c,
    }
}

/// The text a whole configuration is written as: its lines joined by newlines.
pub open spec fn render_rack(r: Seq<StatementView>) -> Seq<char> {
    join_lines(r.map_values(|s: StatementView| render_statement(s)))
}

/// `s` is an `Include:` command of path `p` (switched on or off).
pub open spec fn includes_path(s: StatementView, p: Seq<char>) -> bool {
    match s {
        StatementView::Command { data: DataView::Include(q), .. } => paths_equal(q, p),
        _ => false,
    }
}

/// Position of the first `Include:` of path `p`, if any.
pub open spec fn first_include(r: Seq<StatementView>, p: Seq<char>) -> Option<int>
    decreases r.len(),
{
    if r.len() == 0 {
        None
    } else if includes_path(r[0], p) {
        Some(0)
    } else {
        match first_include(r.drop_first(), p) {
            Some(i) => Some(i + 1),
            None => None,
        }
    }
}

/// `s` with its on/off switch flipped (comments stay as they are).
pub open spec fn toggled(s: StatementView) -> StatementView {
    match s {
        StatementView::Command { enabled, data } => StatementView::Command { enabled: !enabled, data },
        StatementView::Comment(c) => StatementView::Comment(c),
    }
}

/// Whether a statement is a command that is switched on.
pub open spec fn is_enabled(s: StatementView) -> bool {
    match s {
        StatementView::Command { enabled, .. } => enabled,
        StatementView::Comment(_) => false,
    }
}

/// The statements after switching the first `Include:` of `p`, and its new state
/// (`false` when there is no such include, and then nothing changes).
pub open spec fn toggle_rack(r: Seq<StatementView>, p: Seq<char>) -> (Seq<StatementView>, bool) {
    match first_include(r, p) {
        Some(i) => (r.update(i, toggled(r[i])), is_enabled(toggled(r[i]))),
        None => (r, false),
    }
}

/// `first_include` gives the first matching position, and `None` exactly when none matches.
pub proof fn lemma_first_include(r: Seq<StatementView>, p: Seq<char>)
    ensures
        match first_include(r, p) {
            Some(i) => 0 <= i < r.len() && includes_path(r[i], p) && forall|j: int|
                0 <= j < i ==> !includes_path(#[trigger] r[j], p),
            None => forall|j: int| 0 <= j < r.len() ==> !includes_path(#[trigger] r[j], p),
        },
    decreases r.len(),
{
    if r.len() > 0 && !includes_path(r[0], p) {
        lemma_first_include(r.drop_first(), p);
        assert forall|j: int| 0 < j < r.len() implies r[j] == r.drop_first()[j - 1] by {}
    }
}

/// Two sequences that match `p` at the same positions have the same first match.
pub proof fn lemma_first_include_same(r: Seq<StatementView>, t: Seq<StatementView>, p: Seq<char>)
    requires
        r.len() == t.len(),
        forall|j: int| 0 <= j < r.len() ==> includes_path(#[trigger] r[j], p) == includes_path(t[j], p),
    ensures
        first_include(r, p) == first_include(t, p),
    decreases r.len(),
{
    if r.len() > 0 {
        assert(includes_path(r[0], p) == includes_path(t[0], p));
        let r1 = r.drop_first();
        let t1 = t.drop_first();
        assert forall|j: int| 0 <= j < r1.len() implies includes_path(#[trigger] r1[j], p) == includes_path(t1[j], p) by {
            assert(r1[j] == r[j + 1]);
            assert(t1[j] == t[j + 1]);
        }
        lemma_first_include_same(r1, t1, p);
    }
}

// ---------------------------------------------------------------------------
// Executable reading and writing

/// Whether `st` is an `Include:` command of path `p`.
fn is_include_of(st: &Statement, p: &str) -> (r: bool)
    ensures
        r == includes_path(st@, p@),
{
    match st {
        Statement::Command(c) => match &c.data {
            CommandData::Include(q) => path_eq(q.as_str(), p),
            _ => false,
        },
        Statement::Comment(_) => false,
    }
}

/// `st` with its on/off switch flipped.
fn toggle_statement(st: Statement) -> (r: Statement)
    ensures
        r@ == toggled(st@),
{
    match st {
        Statement::Command(c) => Statement::Command(CommandStatement { enabled: !c.enabled, data: c.data }),
        Statement::Comment(t) => Statement::Comment(t),
    }
}

/// Reads the line `v[lo..hi]` of `s` (whose characters are `v`).
fn parse_line(s: &str, v: &Vec<char>, lo: usize, hi: usize) -> (st: Statement)
    requires
        v@ == s@,
        lo <= hi <= v.len(),
    ensures
        st@ == parse_statement(v@.subrange(lo as int, hi as int)),
{
    let ghost line = v@.subrange(lo as int, hi as int);
    let is_comment = lo < hi && v[lo] == '#';
    let start = if is_comment {
        lo + 1
    } else {
        lo
    };
    proof {
        if is_comment {
            assert(line.drop_first() =~= v@.subrange(start as int, hi as int));
        } else {
            assert(line =~= v@.subrange(start as int, hi as int));
        }
    }
    let (a, b) = trim_bounds(v, start, hi);
    let ghost body = v@.subrange(a as int, b as int);
    let c = find_char_in(v, a, b, ':');
    if c == b {
        return Statement::Comment(substring(s, v, a, b));
    }
    let (na, nb) = trim_bounds(v, a, c);
    let (va, vb) = trim_bounds(v, c + 1, b);
    proof {
        assert(body.take(c - a) =~= v@.subrange(a as int, c as int));
        assert(body.skip(c - a + 1) =~= v@.subrange(c + 1, b as int));
    }
    if na == nb || va == vb {
        return Statement::Comment(substring(s, v, a, b));
    }
    let value = substring(s, v, va, vb);
    let data = if range_equals(v, na, nb, "Device") {
        proof {
            reveal_strlit("Device");
            assert("Device"@ =~= device_word());
        }
        CommandData::Device(value)
    } else if range_equals(v, na, nb, "Include") {
        proof {
            reveal_strlit("Device");
            reveal_strlit("Include");
            assert("Device"@ =~= device_word());
            assert("Include"@ =~= include_word());
        }
        CommandData::Include(value)
    } else {
        proof {
            reveal_strlit("Device");
            reveal_strlit("Include");
            assert("Device"@ =~= device_word());
            assert("Include"@ =~= include_word());
        }
        CommandData::Unknown { name: substring(s, v, na, nb), value }
    };
    Statement::Command(CommandStatement { enabled: !is_comment, data })
}

/// The line that `st` is written as.
fn render_line(st: &Statement) -> (r: String)
    ensures
        r@ == render_statement(st@),
{
    proof {
        reveal_strlit("# ");
        reveal_strlit("Device: ");
        reveal_strlit("Include: ");
        reveal_strlit(": ");
    }
    let mut out = String::new();
    match st {
        Statement::Command(c) => {
            if !c.enabled {
                out.append("# ");
            }
            let ghost mark = out@;
            match &c.data {
                CommandData::Device(d) => {
                    out.append("Device: ");
                    out.append(d.as_str());
                    assert(out@ =~= mark + render_data(c.data@));
                },
                CommandData::Include(p) => {
                    out.append("Include: ");
                    out.append(p.as_str());
                    assert(out@ =~= mark + render_data(c.data@));
                },
                CommandData::Unknown { name, value } => {
                    out.append(name.as_str());
                    out.append(": ");
                    out.append(value.as_str());
                    assert(out@ =~= mark + render_data(c.data@));
                },
            }
            assert(out@ =~= render_statement(st@));
        },
        Statement::Comment(t) => {
            out.append("# ");
            out.append(t.as_str());
            assert(out@ =~= render_statement(st@));
        },
    }
    out
}

impl RackFile {
    /// Directory that holds the rack files the keymap refers to.
    pub fn get_custom_dir() -> (r: String)
        ensures
            r@ == "D:/Misc/EqualizerAPO/"@,
    {
        String::from_str("D:/Misc/EqualizerAPO/")
    }

    /// Location of EqualizerAPO's `config.txt`.
    pub fn get_root_path() -> (r: String)
        ensures
            r@ == "C:/Program Files/EqualizerAPO/config/config.txt"@,
    {
        String::from_str("C:/Program Files/EqualizerAPO/config/config.txt")
    }

    /// The statements, in file order.
    pub fn statements(&self) -> (r: &Vec<Statement>)
        ensures
            r@.map_values(|s: Statement| s@) == self@,
    {
        &self.statements
    }

    /// Reads a configuration text, one statement per line.
    pub fn parse(text: &str) -> (r: RackFile)
        ensures
            r@ == parse_rack(text@),
    {
        let v = chars_of(text);
        let n = v.len();
        let mut statements: Vec<Statement> = Vec::new();
        let mut pos: usize = 0;
        let ghost mut done: Seq<Seq<char>> = Seq::empty();
        proof {
            assert(v@.skip(0) =~= v@);
        }
        while pos < n
            invariant
                v@ == text@,
                n == v.len(),
                pos <= n,
                split_lines(v@) == done + split_lines(v@.skip(pos as int)),
                statements@.map_values(|s: Statement| s@) == done.map_values(
                    |l: Seq<char>| parse_statement(l),
                ),
            decreases n - pos,
        {
            let e = find_char_in(&v, pos, n, '\n');
            let st = parse_line(text, &v, pos, e);
            let ghost rest = v@.skip(pos as int);
            proof {
                assert forall|j: int| 0 <= j < e - pos implies rest[j] != '\n' by {
                    assert(rest[j] == v@[pos + j]);
                }
                if e < n {
                    assert(rest[e - pos] == v@[e as int]);
                }
                lemma_split_lines_step(rest, e - pos);
                assert(rest.take(e - pos) =~= v@.subrange(pos as int, e as int));
                if e < n {
                    assert(rest.skip(e - pos + 1) =~= v@.skip(e + 1));
                } else {
                    assert(rest =~= v@.subrange(pos as int, e as int));
                    assert(v@.skip(n as int).len() == 0);
                    assert(split_lines(v@.skip(n as int)) =~= Seq::<Seq<char>>::empty());
                }
            }
            statements.push(st);
            proof {
                let line = v@.subrange(pos as int, e as int);
                assert(done.push(line).map_values(|l: Seq<char>| parse_statement(l)) =~= done.map_values(
                    |l: Seq<char>| parse_statement(l),
                ).push(parse_statement(line)));
                done = done.push(line);
                assert(statements@.map_values(|s: Statement| s@) =~= done.map_values(
                    |l: Seq<char>| parse_statement(l),
                ));
            }
            if e < n {
                pos = e + 1;
            } else {
                pos = n;
                proof {
                    assert(split_lines(v@.skip(n as int)) =~= Seq::<Seq<char>>::empty());
                    assert(split_lines(v@) =~= done + split_lines(v@.skip(pos as int)));
                }
            }
        }
        proof {
            assert(v@.skip(n as int).len() == 0);
            assert(split_lines(v@.skip(n as int)) =~= Seq::<Seq<char>>::empty());
            assert(done + split_lines(v@.skip(n as int)) =~= done);
        }
        RackFile { statements }
    }

    /// Switches the first `Include:` of `request_path` on or off and returns its new state;
    /// returns `false` and changes nothing when the configuration has no such include.
    pub fn toggle_include(&mut self, request_path: &str) -> (r: bool)
        ensures
            final(self)@ == toggle_rack(old(self)@, request_path@).0,
            r == toggle_rack(old(self)@, request_path@).1,
    {
        let ghost r0 = self@;
        let n = self.statements.len();
        let mut i: usize = 0;
        while i < n
            invariant
                n == self.statements.len(),
                self@ == r0,
                r0 == old(self)@,
                i <= n,
                forall|j: int| 0 <= j < i ==> !includes_path(#[trigger] r0[j], request_path@),
            decreases n - i,
        {
            proof {
                assert(r0[i as int] == self.statements@[i as int]@);
            }
            if is_include_of(&self.statements[i], request_path) {
                proof {
                    lemma_first_include(r0, request_path@);
                    match first_include(r0, request_path@) {
                        Some(k) => {
                            if k < i {
                                assert(!includes_path(r0[k], request_path@));
                            } else if k > i {
                                assert(!includes_path(r0[i as int], request_path@));
                            }
                        },
                        None => {
                            assert(!includes_path(r0[i as int], request_path@));
                        },
                    }
                    assert(first_include(r0, request_path@) == Some(i as int));
                }
                let st = self.statements.remove(i);
                let st = toggle_statement(st);
                let enabled = match &st {
                    Statement::Command(c) => c.enabled,
                    Statement::Comment(_) => false,
                };
                let ghost new_st = st;
                self.statements.insert(i, st);
                proof {
                    assert(new_st@ == toggled(r0[i as int]));
                    assert(enabled == is_enabled(toggled(r0[i as int])));
                    assert(self@ =~= r0.update(i as int, toggled(r0[i as int])));
                    assert(toggle_rack(r0, request_path@).0 == r0.update(i as int, toggled(r0[i as int])));
                }
                return enabled;
            }
            i = i + 1;
        }
        proof {
            lemma_first_include(r0, request_path@);
            if let Some(k) = first_include(r0, request_path@) {
                assert(!includes_path(r0[k], request_path@));
            }
        }
        false
    }

    /// The text this configuration is written as: one line per statement, joined by newlines.
    pub fn render(&self) -> (r: String)
        ensures
            r@ == render_rack(self@),
    {
        let ghost lines = self@.map_values(|s: StatementView| render_statement(s));
        let mut out = String::new();
        let n = self.statements.len();
        proof {
            reveal_strlit("\n");
            assert(lines.take(0) =~= Seq::<Seq<char>>::empty());
        }
        for i in 0..n
            invariant
                n == self.statements.len(),
                lines == self@.map_values(|s: StatementView| render_statement(s)),
                lines.len() == n,
                out@ == join_lines(lines.take(i as int)),
        {
            let line = render_line(&self.statements[i]);
            proof {
                assert(self@[i as int] == self.statements@[i as int]@);
                assert(line@ == lines[i as int]);
                assert(lines.take(i + 1) =~= lines.take(i as int).push(lines[i as int]));
            }
            let ghost prev = out@;
            if i > 0 {
                out.append("\n");
                out.append(line.as_str());
                proof {
                    crate::text::lemma_join_push(lines.take(i as int), lines[i as int]);
                    reveal_strlit("\n");
                    assert("\n"@ =~= seq!['\n']);
                    assert(out@ =~= prev + seq!['\n'] + line@);
                }
            } else {
                out.append(line.as_str());
                proof {
                    assert(lines.take(1) =~= seq![lines[0]]);
                    assert(join_lines(seq![lines[0]]) == lines[0]);
                    assert(prev.len() == 0);
                    assert(out@ =~= line@);
                }
            }
        }
        proof {
            assert(lines.take(n as int) =~= lines);
        }
        out
    }
}

} // verus!

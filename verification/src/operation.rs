//! An overwrite operation: a name, a source folder, an output folder and a
//! list of actions, each an action code and a path relative to both
//! folders. This module reads operations from the text of an operation
//! file, writes that text back, and prepares what the user interface shows
//! and what an overwrite run does.

use vstd::prelude::*;
use crate::lines::{opt_text_view, opt_texts_view, read_lines, read_lines_spec};
use crate::text::{
    chars_of, first_piece, parse_u8, parse_u8_spec, push_char, push_text, push_u8_decimal,
    second_piece, split_two, string_of, u8_decimal,
};

verus! {

/// The action code that copies a file from the source folder to the
/// output folder.
pub const ACTION_COPY: u8 = 1;

/// The action code that removes a file from the output folder.
pub const ACTION_REMOVE: u8 = 2;

/// An overwrite operation.
#[derive(Clone, Debug)]
pub struct Operation {
    /// The name shown for the operation; `None` for an unnamed one.
    pub name: Option<String>,
    /// The folder that files are copied from.
    pub source: String,
    /// The folder that files are copied to or removed from.
    pub out: String,
    /// The actions, in order: an action code and a relative path.
    pub actions: Vec<(u8, String)>,
}

/// What an [`Operation`] holds, as mathematical text.
#[verifier::ext_equal]
pub struct OperationModel {
    pub name: Option<Seq<char>>,
    pub source: Seq<char>,
    pub out: Seq<char>,
    pub actions: Seq<(u8, Seq<char>)>,
}

/// The actions of an operation as codes and texts.
pub open spec fn actions_view(a: Seq<(u8, String)>) -> Seq<(u8, Seq<char>)> {
    a.map_values(|x: (u8, String)| (x.0, x.1@))
}

impl View for Operation {
    type V = OperationModel;

    open spec fn view(&self) -> OperationModel {
        OperationModel {
            name: opt_text_view(self.name),
            source: self.source@,
            out: self.out@,
            actions: actions_view(self.actions@),
        }
    }
}

/// Why the text of an operation file could not be read as an operation.
#[derive(Clone, Copy, Debug, PartialEq, Eq, Structural)]
pub enum OperationParseError {
    /// The file has no line at all.
    NoContents,
    /// The file ends before its third line, the router line.
    NoRouterLine,
    /// The router line is not valid UTF-8.
    UnreadableRouterLine,
    /// The router line does not hold the source and the output folder
    /// separated by `" | "`.
    MissingFolder,
}

// ---------------------------------------------------------------------------
// The file format
// ---------------------------------------------------------------------------

/// The name that the first line gives: none for an empty or unreadable line.
pub open spec fn name_of(line: Option<Seq<char>>) -> Option<Seq<char>> {
    match line {
        Some(l) => if l.len() == 0 {
            None
        } else {
            Some(l)
        },
        None => None,
    }
}

/// The action that an action line gives: the code is the first field read
/// as a `u8` (0 when it is not one); a line without a second field, or with
/// an empty one, gives code 0 and an empty path.
pub open spec fn action_of(line: Seq<char>) -> (u8, Seq<char>) {
    let code = match parse_u8_spec(first_piece(line)) {
        Some(v) => v,
        None => 0u8,
    };
    match second_piece(line) {
        Some(p) => if p.len() > 0 {
            (code, p)
        } else {
            (0u8, Seq::<char>::empty())
        },
        None => (0u8, Seq::<char>::empty()),
    }
}

/// The actions that the action lines give; unreadable lines are skipped.
pub open spec fn actions_of(ls: Seq<Option<Seq<char>>>) -> Seq<(u8, Seq<char>)>
    decreases ls.len(),
{
    if ls.len() == 0 {
        seq![]
    } else {
        let rest = actions_of(ls.drop_last());
        match ls.last() {
            Some(l) => rest.push(action_of(l)),
            None => rest,
        }
    }
}

/// The action lines: every line after the fifth.
pub open spec fn body_lines(lines: Seq<Option<Seq<char>>>) -> Seq<Option<Seq<char>>> {
    if lines.len() > 5 {
        lines.skip(5)
    } else {
        seq![]
    }
}

/// The operation that the lines of an operation file describe: line 1 is
/// the name, line 3 the router line `source | out`, lines 2, 4 and 5 are
/// not read, and every later line is an action `code | path`.
pub open spec fn parse_lines_spec(lines: Seq<Option<Seq<char>>>) -> Result<
    OperationModel,
    OperationParseError,
> {
    if lines.len() == 0 {
        Err(OperationParseError::NoContents)
    } else if lines.len() < 3 {
        Err(OperationParseError::NoRouterLine)
    } else {
        match lines[2] {
            None => Err(OperationParseError::UnreadableRouterLine),
            Some(router) => match second_piece(router) {
                None => Err(OperationParseError::MissingFolder),
                Some(out) => Ok(
                    OperationModel {
                        name: name_of(lines[0]),
                        source: first_piece(router),
                        out: out,
                        actions: actions_of(body_lines(lines)),
                    },
                ),
            },
        }
    }
}

/// The operation that the bytes of an operation file describe.
pub open spec fn parse_file_spec(b: Seq<u8>) -> Result<OperationModel, OperationParseError> {
    parse_lines_spec(read_lines_spec(b))
}

/// A parse result, with the operation taken by its view.
pub open spec fn result_view(r: Result<Operation, OperationParseError>) -> Result<
    OperationModel,
    OperationParseError,
> {
    match r {
        Ok(op) => Ok(op@),
        Err(e) => Err(e),
    }
}

/// The separator between the fields of a line.
pub open spec fn sep() -> Seq<char> {
    seq![' ', '|', ' ']
}

/// The first line of a saved operation: its name, or nothing.
pub open spec fn name_line(name: Option<Seq<char>>) -> Seq<char> {
    match name {
        Some(n) => n,
        None => Seq::<char>::empty(),
    }
}

/// The router line: `source | out`.
pub open spec fn router_line(source: Seq<char>, out: Seq<char>) -> Seq<char> {
    source + sep() + out
}

/// An action line: `code | path`.
pub open spec fn action_line(a: (u8, Seq<char>)) -> Seq<char> {
    u8_decimal(a.0) + sep() + a.1
}

/// The five lines before the actions of a saved operation.
pub open spec fn header_lines(op: OperationModel) -> Seq<Seq<char>> {
    seq![
        name_line(op.name),
        Seq::<char>::empty(),
        router_line(op.source, op.out),
        Seq::<char>::empty(),
        Seq::<char>::empty(),
    ]
}

/// The lines of a saved operation.
pub open spec fn file_lines(op: OperationModel) -> Seq<Seq<char>> {
    header_lines(op) + op.actions.map_values(|a: (u8, Seq<char>)| action_line(a))
}

/// Lines joined into a text, each one ended by `\n`.
pub open spec fn join_lines(ls: Seq<Seq<char>>) -> Seq<char>
    decreases ls.len(),
{
    if ls.len() == 0 {
        seq![]
    } else {
        ls[0] + seq!['\n'] + join_lines(ls.drop_first())
    }
}

/// The text that saving an operation writes.
pub open spec fn file_text(op: OperationModel) -> Seq<char> {
    join_lines(file_lines(op))
}

/// Adding a line adds its text and a `\n`.
pub proof fn lemma_join_lines_push(ls: Seq<Seq<char>>, l: Seq<char>)
    ensures
        join_lines(ls.push(l)) == join_lines(ls) + l + seq!['\n'],
    decreases ls.len(),
{
    if ls.len() == 0 {
        assert(ls.push(l).drop_first() =~= Seq::<Seq<char>>::empty());
        assert(join_lines(ls.push(l).drop_first()) =~= Seq::<char>::empty());
        assert(join_lines(ls) =~= Seq::<char>::empty());
        assert(join_lines(ls.push(l)) =~= l + seq!['\n']);
    } else {
        assert(ls.push(l).drop_first() =~= ls.drop_first().push(l));
        lemma_join_lines_push(ls.drop_first(), l);
        assert(join_lines(ls.push(l)) =~= join_lines(ls) + l + seq!['\n']);
    }
}

// ---------------------------------------------------------------------------
// What the user interface shows, and what an overwrite run does
// ---------------------------------------------------------------------------

/// The name shown for an operation.
pub open spec fn shown_name(name: Option<Seq<char>>) -> Seq<char> {
    match name {
        Some(n) => n,
        None => "Unnamed Operation"@,
    }
}

/// One step of an overwrite run, taken from one action; the path is
/// relative to the source and output folders.
#[derive(Clone, Debug)]
pub enum OverwriteStep {
    /// Copy the file at `path` from the source folder to the output folder.
    Copy { path: String },
    /// Remove the file at `path` from the output folder.
    Remove { path: String },
    /// An action whose code is neither copy nor remove: the run reports it.
    Invalid { code: u8, path: String },
}

/// `step` is the step that action `a` asks for.
pub open spec fn step_for(step: OverwriteStep, a: (u8, Seq<char>)) -> bool {
    match step {
        OverwriteStep::Copy { path } => a.0 == ACTION_COPY && path@ == a.1,
        OverwriteStep::Remove { path } => a.0 == ACTION_REMOVE && path@ == a.1,
        OverwriteStep::Invalid { code, path } => a.0 != ACTION_COPY && a.0 != ACTION_REMOVE
            && code == a.0 && path@ == a.1,
    }
}

// ---------------------------------------------------------------------------
// Executable functions
// ---------------------------------------------------------------------------

/// Reads one action line.
fn parse_action(line: &String) -> (r: (u8, String))
    ensures
        (r.0, r.1@) == action_of(line@),
{
    let cs = chars_of(line.as_str());
    let (first, second) = split_two(&cs);
    let code = match parse_u8(&first) {
        Some(v) => v,
        None => 0u8,
    };
    match second {
        Some(p) => {
            if p.len() > 0 {
                (code, string_of(&p))
            } else {
                (0u8, String::new())
            }
        },
        None => (0u8, String::new()),
    }
}

impl Operation {
    /// An empty operation: no name, empty folders and no actions.
    pub fn new() -> (r: Operation)
        ensures
            r@ == (OperationModel {
                name: None,
                source: Seq::<char>::empty(),
                out: Seq::<char>::empty(),
                actions: Seq::<(u8, Seq<char>)>::empty(),
            }),
    {
        let r = Operation {
            name: None,
            source: String::new(),
            out: String::new(),
            actions: Vec::new(),
        };
        assert(r@.actions =~= Seq::<(u8, Seq<char>)>::empty());
        r
    }

    /// Reads an operation from the lines of an operation file, where an
    /// unreadable line is `None`; see [`parse_lines_spec`].
    pub fn parse_lines(lines: &Vec<Option<String>>) -> (r: Result<Operation, OperationParseError>)
        ensures
            result_view(r) == parse_lines_spec(opt_texts_view(lines@)),
    {
        let ghost ls = opt_texts_view(lines@);
        let n = lines.len();
        if n == 0 {
            return Err(OperationParseError::NoContents);
        }
        let name: Option<String> = match &lines[0] {
            Some(l) => {
                if l.as_str().is_empty() {
                    None
                } else {
                    Some(l.clone())
                }
            },
            None => None,
        };
        assert(opt_text_view(name) == name_of(ls[0]));
        if n < 3 {
            return Err(OperationParseError::NoRouterLine);
        }
        let router: &String = match &lines[2] {
            Some(r) => r,
            None => {
                return Err(OperationParseError::UnreadableRouterLine);
            },
        };
        let router_chars = chars_of(router.as_str());
        let (first, second) = split_two(&router_chars);
        let second = match second {
            Some(s) => s,
            None => {
                return Err(OperationParseError::MissingFolder);
            },
        };
        let mut actions: Vec<(u8, String)> = Vec::new();
        let mut i: usize = 5;
        proof {
            if n > 5 {
                assert(ls.subrange(5, 5) =~= Seq::<Option<Seq<char>>>::empty());
            }
        }
        while i < n
            invariant
                5 <= i <= n || (i == 5 && n < 5),
                n == lines.len(),
                ls == opt_texts_view(lines@),
                actions_view(actions@) == actions_of(
                    if n > 5 { ls.subrange(5, i as int) } else { Seq::<Option<Seq<char>>>::empty() },
                ),
            decreases n - i,
        {
            let ghost before = actions_view(actions@);
            assert(ls.subrange(5, i + 1).drop_last() =~= ls.subrange(5, i as int));
            match &lines[i] {
                Some(l) => {
                    let a = parse_action(l);
                    actions.push(a);
                    assert(actions_view(actions@) =~= before.push(action_of(l@)));
                },
                None => {},
            }
            i = i + 1;
        }
        if n > 5 {
            assert(ls.subrange(5, n as int) =~= ls.skip(5));
        }
        let op = Operation {
            name: name,
            source: string_of(&first),
            out: string_of(&second),
            actions: actions,
        };
        Ok(op)
    }

    /// Reads an operation from the bytes of an operation file; see
    /// [`parse_file_spec`].
    pub fn try_from_bytes(data: &[u8]) -> (r: Result<Operation, OperationParseError>)
        ensures
            result_view(r) == parse_file_spec(data@),
    {
        let lines = read_lines(data);
        Operation::parse_lines(&lines)
    }

    /// The text that saving the operation writes; see [`file_text`].
    pub fn to_file_text(&self) -> (r: String)
        ensures
            r@ == file_text(self@),
    {
        let ghost op = self@;
        let mut s = String::new();
        match &self.name {
            Some(n) => push_text(&mut s, n),
            None => {},
        }
        push_char(&mut s, '\n');
        proof {
            lemma_join_lines_push(Seq::<Seq<char>>::empty(), name_line(op.name));
            assert(header_lines(op).take(1) =~= Seq::<Seq<char>>::empty().push(name_line(op.name)));
            assert(join_lines(Seq::<Seq<char>>::empty()) =~= Seq::<char>::empty());
            assert(s@ =~= name_line(op.name) + seq!['\n']);
        }
        assert(s@ =~= join_lines(header_lines(op).take(1)));
        push_char(&mut s, '\n');
        proof {
            lemma_join_lines_push(header_lines(op).take(1), header_lines(op)[1]);
            assert(header_lines(op).take(2) =~= header_lines(op).take(1).push(header_lines(op)[1]));
        }
        assert(s@ =~= join_lines(header_lines(op).take(2)));
        push_text(&mut s, &self.source);
        push_char(&mut s, ' ');
        push_char(&mut s, '|');
        push_char(&mut s, ' ');
        push_text(&mut s, &self.out);
        push_char(&mut s, '\n');
        proof {
            lemma_join_lines_push(header_lines(op).take(2), header_lines(op)[2]);
            assert(header_lines(op).take(3) =~= header_lines(op).take(2).push(header_lines(op)[2]));
        }
        assert(s@ =~= join_lines(header_lines(op).take(3)));
        push_char(&mut s, '\n');
        proof {
            lemma_join_lines_push(header_lines(op).take(3), header_lines(op)[3]);
            assert(header_lines(op).take(4) =~= header_lines(op).take(3).push(header_lines(op)[3]));
        }
        assert(s@ =~= join_lines(header_lines(op).take(4)));
        push_char(&mut s, '\n');
        proof {
            lemma_join_lines_push(header_lines(op).take(4), header_lines(op)[4]);
            assert(header_lines(op).take(5) =~= header_lines(op).take(4).push(header_lines(op)[4]));
            assert(header_lines(op).take(5) =~= header_lines(op));
        }
        let ghost alines = op.actions.map_values(|a: (u8, Seq<char>)| action_line(a));
        assert(file_lines(op).take(5) =~= header_lines(op));
        let n = self.actions.len();
        let mut i: usize = 0;
        while i < n
            invariant
                i <= n,
                n == self.actions.len(),
                op == self@,
                alines == op.actions.map_values(|a: (u8, Seq<char>)| action_line(a)),
                s@ == join_lines(header_lines(op) + alines.take(i as int)),
            decreases n - i,
        {
            let code = self.actions[i].0;
            push_u8_decimal(&mut s, code);
            push_char(&mut s, ' ');
            push_char(&mut s, '|');
            push_char(&mut s, ' ');
            push_text(&mut s, &self.actions[i].1);
            push_char(&mut s, '\n');
            proof {
                let prev = header_lines(op) + alines.take(i as int);
                lemma_join_lines_push(prev, alines[i as int]);
                assert(header_lines(op) + alines.take(i + 1) =~= prev.push(alines[i as int]));
                assert(alines[i as int] =~= u8_decimal(code) + sep() + self.actions@[i as int].1@);
            }
            i = i + 1;
        }
        assert(alines.take(n as int) =~= alines);
        s
    }

    /// What the user interface shows of the operation: the actions as
    /// codes and path texts, the name (or "Unnamed Operation"), the output
    /// folder and the source folder, in that order.
    pub fn slintify(&mut self) -> (r: (Vec<(i32, String)>, String, String, String))
        ensures
            *final(self) == *old(self),
            r.0@.len() == old(self).actions@.len(),
            forall|i: int|
                0 <= i < r.0@.len() ==> #[trigger] r.0@[i].0 == old(self).actions@[i].0 as i32
                    && r.0@[i].1@ == old(self).actions@[i].1@,
            r.1@ == shown_name(old(self)@.name),
            old(self).name matches Some(n) ==> r.1@ == n@,
            old(self).name is None ==> r.1@ == "Unnamed Operation"@,
            r.2@ == old(self).out@,
            r.3@ == old(self).source@,
    {
        let mut shown: Vec<(i32, String)> = Vec::new();
        let n = self.actions.len();
        let mut i: usize = 0;
        while i < n
            invariant
                i <= n,
                n == self.actions.len(),
                *self == *old(self),
                shown@.len() == i,
                forall|j: int|
                    0 <= j < i ==> #[trigger] shown@[j].0 == self.actions@[j].0 as i32
                        && shown@[j].1@ == self.actions@[j].1@,
            decreases n - i,
        {
            let code = self.actions[i].0 as i32;
            let path = self.actions[i].1.clone();
            shown.push((code, path));
            i = i + 1;
        }
        let name = match &self.name {
            Some(n) => n.clone(),
            None => "Unnamed Operation".to_owned(),
        };
        (shown, name, self.out.clone(), self.source.clone())
    }

    /// The steps of an overwrite run: one per action, in order.
    pub fn plan_overwrite(&self) -> (r: Vec<OverwriteStep>)
        ensures
            r@.len() == self.actions@.len(),
            forall|i: int| 0 <= i < r@.len() ==> step_for(#[trigger] r@[i], self@.actions[i]),
    {
        let mut steps: Vec<OverwriteStep> = Vec::new();
        let n = self.actions.len();
        let mut i: usize = 0;
        while i < n
            invariant
                i <= n,
                n == self.actions.len(),
                steps@.len() == i,
                forall|j: int| 0 <= j < i ==> step_for(#[trigger] steps@[j], self@.actions[j]),
            decreases n - i,
        {
            let code = self.actions[i].0;
            let path = self.actions[i].1.clone();
            let step = if code == ACTION_COPY {
                OverwriteStep::Copy { path }
            } else if code == ACTION_REMOVE {
                OverwriteStep::Remove { path }
            } else {
                OverwriteStep::Invalid { code, path }
            };
            steps.push(step);
            i = i + 1;
        }
        steps
    }

    /// Turns hand-written actions into actions: each code is taken modulo
    /// 256 (so -1 becomes 255) and each path text is kept.
    pub fn convert_actions_manual(unconv: Vec<(i64, &str)>) -> (r: Vec<(u8, String)>)
        ensures
            r@.len() == unconv@.len(),
            forall|i: int|
                0 <= i < r@.len() ==> #[trigger] r@[i].0 as int == unconv@[i].0 % 256
                    && r@[i].1@ == unconv@[i].1@,
    {
        let mut conv: Vec<(u8, String)> = Vec::new();
        let n = unconv.len();
        let mut i: usize = 0;
        while i < n
            invariant
                i <= n,
                n == unconv@.len(),
                conv@.len() == i,
                forall|j: int|
                    0 <= j < i ==> #[trigger] conv@[j].0 as int == unconv@[j].0 % 256
                        && conv@[j].1@ == unconv@[j].1@,
            decreases n - i,
        {
            let m: i64 = unconv[i].0 % 256;
            let code: u8 = if m < 0 { (m + 256) as u8 } else { m as u8 };
            conv.push((code, unconv[i].1.to_owned()));
            i = i + 1;
        }
        conv
    }
}

} // verus!

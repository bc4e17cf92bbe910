//! The directive interpreter.
//!
//! Processing a file means going through its lines in order. A line may ask
//! for another file to be processed in its place; that file is read by
//! whoever drives the [`Processor`], which only says which file it waits
//! for and takes what was read. A file that cannot be read counts as empty.

use vstd::prelude::*;
use vstd::string::StringExecFns;
use crate::cond::{well_nested, CondFrame, CondStack};
use crate::defs::{Defs, Table};
use crate::directive::{
    directive_of,
    lemma_lines_keep_nesting,
    line_step,
    process_line,
    Effect,
    Request,
};
use crate::error::Error;
use crate::path::{resolve, resolved};
use crate::subst::{has_span, lemma_no_span_no_change};
use crate::text::{
    ends_lines_plainly,
    lemma_unlines_lines_of,
    lines_of,
    split_lines,
    texts,
    unlines,
};

verus! {

/// A file in the course of being processed.
pub struct FileState {
    /// Its path.
    pub path: Seq<char>,
    /// Its lines that are still to be processed.
    pub rest: Seq<Seq<char>>,
    /// Its open conditionals.
    pub frames: Seq<CondFrame>,
}

/// How processing the lines of a file came to a stop.
pub enum Stop {
    /// A line asks for the file that it names in this way.
    Include(Seq<char>),
    /// All lines are processed.
    End,
    /// A line failed, or the file ended inside a conditional.
    Fail(Error),
}

/// What processing the lines of a file leaves behind.
pub struct Ran {
    /// The lines that are still to be processed. An include that was asked
    /// for is not among them; a line that failed is the first of them.
    pub rest: Seq<Seq<char>>,
    /// The conditionals that are open.
    pub frames: Seq<CondFrame>,
    /// The output, with what the lines added.
    pub out: Seq<char>,
    /// Why processing stopped.
    pub stop: Stop,
}

/// Processes `lines` in order, with the conditionals `frames` open at the
/// start, and appends what they emit to `out`, each emitted line with a line
/// feed behind it. Processing stops at the first include that asks for a
/// file, at the first line that fails, or at the end; there it is an error
/// if a conditional is still open.
pub open spec fn run_lines(
    lines: Seq<Seq<char>>,
    frames: Seq<CondFrame>,
    out: Seq<char>,
    table: Table,
) -> Ran
    decreases lines.len(),
{
    if lines.len() == 0 {
        Ran {
            rest: lines,
            frames,
            out,
            stop: if frames.len() > 0 {
                Stop::Fail(Error::MissingEndif)
            } else {
                Stop::End
            },
        }
    } else {
        match line_step(frames, lines[0], table) {
            Err(e) => Ran { rest: lines, frames, out, stop: Stop::Fail(e) },
            Ok((next, Request::Nothing)) => run_lines(lines.drop_first(), next, out, table),
            Ok((next, Request::Emit(text))) => run_lines(
                lines.drop_first(),
                next,
                (out + text).push('\n'),
                table,
            ),
            Ok((next, Request::Include(target))) => Ran {
                rest: lines.drop_first(),
                frames: next,
                out,
                stop: Stop::Include(target),
            },
        }
    }
}

/// A file in the course of being processed: its path, its lines, how many of
/// them are done, and its open conditionals.
pub struct SourceFile {
    path: String,
    lines: Vec<String>,
    next: usize,
    conds: CondStack,
}

impl View for SourceFile {
    type V = FileState;

    closed spec fn view(&self) -> FileState {
        FileState {
            path: self.path@,
            rest: if self.next <= self.lines@.len() {
                texts(self.lines@).skip(self.next as int)
            } else {
                Seq::empty()
            },
            frames: self.conds@,
        }
    }
}

/// What a result of [`process_file`] stands for.
pub open spec fn stop_of(result: Result<Option<String>, Error>) -> Stop {
    match result {
        Ok(Some(target)) => Stop::Include(target@),
        Ok(None) => Stop::End,
        Err(e) => Stop::Fail(e),
    }
}

impl SourceFile {
    /// The file at `path` with the content `content`, none of it processed.
    pub fn new(path: String, content: &str) -> (file: SourceFile)
        ensures
            file@ == (FileState {
                path: path@,
                rest: lines_of(content@),
                frames: Seq::<CondFrame>::empty(),
            }),
    {
        let lines = split_lines(content);
        proof {
            assert(texts(lines@).skip(0) == texts(lines@));
        }
        SourceFile { path, lines, next: 0, conds: CondStack::new() }
    }

    /// The path of this file.
    pub fn path(&self) -> (path: &String)
        ensures
            path@ == self@.path,
    {
        &self.path
    }
}

/// Processes the lines of `file` that are still to be processed, and appends
/// what they emit to `out`.
///
/// Returns `Ok(None)` when the file has ended, `Ok(Some(target))` when a line
/// asks for the file that it names as `target`, and the error of the first
/// line that fails. In each case `file` and `out` are left as processing
/// left them: `file` can be processed further once the file asked for is
/// done.
pub fn process_file(file: &mut SourceFile, defs: &Defs, out: &mut String) -> (result: Result<
    Option<String>,
    Error,
>)
    ensures
        ({
            let ran = run_lines(old(file)@.rest, old(file)@.frames, old(out)@, defs@);
            &&& final(file)@ == (FileState {
                path: old(file)@.path,
                rest: ran.rest,
                frames: ran.frames,
            })
            &&& final(out)@ == ran.out
            &&& stop_of(result) == ran.stop
        }),
{
    loop
        invariant
            file@.path == old(file)@.path,
            run_lines(old(file)@.rest, old(file)@.frames, old(out)@, defs@) == run_lines(
                file@.rest,
                file@.frames,
                out@,
                defs@,
            ),
        decreases file@.rest.len(),
    {
        if file.next >= file.lines.len() {
            return if file.conds.depth() > 0 {
                Err(Error::MissingEndif)
            } else {
                Ok(None)
            };
        }
        let ghost rest = file@.rest;
        proof {
            assert(rest[0] == file.lines@[file.next as int]@);
            assert(rest.drop_first() == texts(file.lines@).skip(file.next + 1));
        }
        let effect = match process_line(&mut file.conds, file.lines[file.next].as_str(), defs) {
            Ok(effect) => effect,
            Err(e) => {
                return Err(e);
            },
        };
        file.next += 1;
        match effect {
            Effect::Nothing => {},
            Effect::Emit(text) => {
                out.append(text.as_str());
                out.push('\n');
            },
            Effect::Include(target) => {
                return Ok(Some(target));
            },
        }
    }
}

/// What a processor is doing.
pub enum Phase {
    /// It waits for the content of the file at this path.
    Awaiting(Seq<char>),
    /// It has processed everything; the output is complete.
    Finished,
    /// It has failed.
    Failed(Error),
}

/// The state of a processor.
pub struct Machine {
    /// The files that are being processed, the root file first; each but
    /// the last waits for the one after it.
    pub files: Seq<FileState>,
    /// The output so far.
    pub out: Seq<char>,
    /// What the processor is doing.
    pub phase: Phase,
}

/// The state of a processor that is to process the file at `root`: it waits
/// for that file's content.
pub open spec fn started(root: Seq<char>) -> Machine {
    Machine { files: Seq::empty(), out: Seq::empty(), phase: Phase::Awaiting(root) }
}

/// The state that processing arrives at from the files `files` and the output
/// `out`. The innermost file is processed first. Where it asks for a file,
/// processing waits for the file of that path, seen from the directory of
/// the asking file. Where it ends, the file around it goes on; when the root
/// file has ended, processing has finished. Where it fails, processing has
/// failed, in whatever file it was.
pub open spec fn resumed(files: Seq<FileState>, out: Seq<char>, table: Table) -> Machine
    decreases files.len(),
{
    if files.len() == 0 {
        Machine { files, out, phase: Phase::Finished }
    } else {
        let top = files.last();
        let ran = run_lines(top.rest, top.frames, out, table);
        let left = files.drop_last().push(
            FileState { path: top.path, rest: ran.rest, frames: ran.frames },
        );
        match ran.stop {
            Stop::Include(target) => Machine {
                files: left,
                out: ran.out,
                phase: Phase::Awaiting(resolved(top.path, target)),
            },
            Stop::End => resumed(files.drop_last(), ran.out, table),
            Stop::Fail(e) => Machine { files: left, out: ran.out, phase: Phase::Failed(e) },
        }
    }
}

/// The state of a processor after it was handed `content` as the content of
/// the file it waits for: that file is processed, from its first line, inside
/// the file that asked for it. `None` says that the file could not be read;
/// it is then passed over, and the file that asked for it goes on. A
/// processor that waits for nothing stays as it is.
pub open spec fn supplied(m: Machine, content: Option<Seq<char>>, table: Table) -> Machine {
    match m.phase {
        Phase::Awaiting(path) => match content {
            Some(text) => resumed(
                m.files.push(
                    FileState { path, rest: lines_of(text), frames: Seq::<CondFrame>::empty() },
                ),
                m.out,
                table,
            ),
            None => resumed(m.files, m.out, table),
        },
        _ => m,
    }
}

/// What each of `files` stands for.
pub open spec fn states(files: Seq<SourceFile>) -> Seq<FileState> {
    files.map_values(|file: SourceFile| file@)
}

/// What a processor is doing.
enum Status {
    Awaiting(String),
    Finished,
    Failed(Error),
}

impl View for Status {
    type V = Phase;

    closed spec fn view(&self) -> Phase {
        match self {
            Status::Awaiting(path) => Phase::Awaiting(path@),
            Status::Finished => Phase::Finished,
            Status::Failed(e) => Phase::Failed(*e),
        }
    }
}

/// The directive interpreter, as a machine that is driven from outside: it
/// says which file it waits for, is handed that file's content, and goes on
/// until it waits for the next file, has finished or has failed.
pub struct Processor {
    defs: Defs,
    files: Vec<SourceFile>,
    out: String,
    status: Status,
}

impl View for Processor {
    type V = Machine;

    closed spec fn view(&self) -> Machine {
        Machine { files: states(self.files@), out: self.out@, phase: self.status@ }
    }
}

impl Processor {
    /// The definitions that this processor works with.
    pub closed spec fn table(&self) -> Table {
        self.defs@
    }

    /// A processor for the file at `root`, with the definitions `defs`. It
    /// waits for the content of that file.
    pub fn new(root: &str, defs: Defs) -> (processor: Processor)
        ensures
            processor@ == started(root@),
            processor.table() == defs@,
    {
        let processor = Processor {
            defs,
            files: Vec::new(),
            out: String::new(),
            status: Status::Awaiting(root.to_owned()),
        };
        proof {
            assert(states(processor.files@) == Seq::<FileState>::empty());
        }
        processor
    }

    /// The path of the file that this processor waits for, if it waits for
    /// one.
    pub fn awaited(&self) -> (path: Option<String>)
        ensures
            match self@.phase {
                Phase::Awaiting(p) => path matches Some(found) && found@ == p,
                _ => path is None,
            },
    {
        match &self.status {
            Status::Awaiting(path) => Some(path.clone()),
            _ => None,
        }
    }

    /// Goes on with the innermost file until processing waits for a file,
    /// has finished or has failed.
    fn resume(&mut self)
        ensures
            final(self)@ == resumed(old(self)@.files, old(self)@.out, old(self).table()),
            final(self).table() == old(self).table(),
    {
        loop
            invariant
                self.table() == old(self).table(),
                resumed(old(self)@.files, old(self)@.out, old(self).table()) == resumed(
                    states(self.files@),
                    self.out@,
                    self.table(),
                ),
            decreases self.files@.len(),
        {
            let ghost files = states(self.files@);
            let mut file = match self.files.pop() {
                Some(file) => file,
                None => {
                    self.status = Status::Finished;
                    return ;
                },
            };
            proof {
                assert(states(self.files@) == files.drop_last());
                assert(file@ == files.last());
            }
            let ghost below = states(self.files@);
            match process_file(&mut file, &self.defs, &mut self.out) {
                Ok(Some(target)) => {
                    let path = resolve(file.path().as_str(), target.as_str());
                    self.files.push(file);
                    self.status = Status::Awaiting(path);
                    proof {
                        assert(states(self.files@) == below.push(file@));
                    }
                    return ;
                },
                Ok(None) => {},
                Err(e) => {
                    self.files.push(file);
                    self.status = Status::Failed(e);
                    proof {
                        assert(states(self.files@) == below.push(file@));
                    }
                    return ;
                },
            }
        }
    }

    /// Hands this processor the content of the file that it waits for, or
    /// `None` where that file could not be read, and lets it go on until it
    /// waits for the next file, has finished or has failed. A file that
    /// could not be read is passed over: nothing is emitted for it, and it
    /// is no error. A processor that waits for nothing stays as it is.
    pub fn supply(&mut self, content: Option<&str>)
        ensures
            final(self)@ == supplied(
                old(self)@,
                match content {
                    Some(text) => Some(text@),
                    None => None,
                },
                old(self).table(),
            ),
            final(self).table() == old(self).table(),
    {
        let path = match &self.status {
            Status::Awaiting(path) => path.clone(),
            _ => {
                return ;
            },
        };
        if let Some(text) = content {
            let ghost below = states(self.files@);
            let file = SourceFile::new(path, text);
            self.files.push(file);
            proof {
                assert(states(self.files@) == below.push(file@));
            }
        }
        self.resume();
    }

    /// The outcome, once there is one: the output of a processor that has
    /// finished, the error of one that has failed, `None` of one that still
    /// waits for a file.
    pub fn into_result(self) -> (outcome: Option<Result<String, Error>>)
        ensures
            match self@.phase {
                Phase::Awaiting(_) => outcome is None,
                Phase::Finished => outcome matches Some(Ok(out)) && out@ == self@.out,
                Phase::Failed(e) => outcome matches Some(Err(err)) && err == e,
            },
    {
        match self.status {
            Status::Awaiting(_) => None,
            Status::Finished => Some(Ok(self.out)),
            Status::Failed(e) => Some(Err(e)),
        }
    }
}

/// Wherever processing the lines of a file stops, its conditionals are well
/// nested if they were at the start, as they are in a file that is new.
pub proof fn lemma_files_keep_nesting(
    lines: Seq<Seq<char>>,
    frames: Seq<CondFrame>,
    out: Seq<char>,
    table: Table,
)
    requires
        well_nested(frames),
    ensures
        well_nested(run_lines(lines, frames, out, table).frames),
    decreases lines.len(),
{
    if lines.len() > 0 {
        lemma_lines_keep_nesting(frames, lines[0], table);
        match line_step(frames, lines[0], table) {
            Ok((next, Request::Nothing)) => {
                lemma_files_keep_nesting(lines.drop_first(), next, out, table);
            },
            Ok((next, Request::Emit(text))) => {
                lemma_files_keep_nesting(lines.drop_first(), next, (out + text).push('\n'), table);
            },
            _ => {},
        }
    }
}

/// Whether `lines` are content lines without a `$$` span, all of them.
pub open spec fn plain(lines: Seq<Seq<char>>) -> bool {
    forall|k: int|
        0 <= k < lines.len() ==> directive_of(#[trigger] lines[k]) is Content && !has_span(
            lines[k],
            '$',
        )
}

/// Outside every conditional, content lines without a `$$` span are written
/// out as they are, one after the other.
pub proof fn lemma_plain_lines_pass(lines: Seq<Seq<char>>, out: Seq<char>, table: Table)
    requires
        plain(lines),
    ensures
        run_lines(lines, Seq::empty(), out, table) == (Ran {
            rest: Seq::empty(),
            frames: Seq::empty(),
            out: out + unlines(lines),
            stop: Stop::End,
        }),
    decreases lines.len(),
{
    let none = Seq::<CondFrame>::empty();
    if lines.len() == 0 {
        assert(out + unlines(lines) == out);
        assert(lines == Seq::<Seq<char>>::empty());
    } else {
        let line = lines[0];
        let rest = lines.drop_first();
        lemma_no_span_no_change(line, '$', table);
        assert(line_step(none, line, table) == Ok::<(Seq<CondFrame>, Request), Error>(
            (none, Request::Emit(line)),
        ));
        assert forall|k: int| 0 <= k < rest.len() implies directive_of(#[trigger] rest[k])
            is Content && !has_span(rest[k], '$') by {
            assert(rest[k] == lines[k + 1]);
        }
        lemma_plain_lines_pass(rest, (out + line).push('\n'), table);
        assert((out + line).push('\n') + unlines(rest) == out + unlines(lines));
    }
}

/// Processing is the identity on text that is written as lines are written
/// out and holds neither a directive nor a `$$` span: the output is the
/// text, whatever is defined. Other text is changed even where it holds
/// nothing to process: a last line without a line feed gains one, and a
/// carriage return before a line feed is dropped.
pub proof fn lemma_plain_text_is_unchanged(root: Seq<char>, text: Seq<char>, table: Table)
    requires
        ends_lines_plainly(text),
        plain(lines_of(text)),
    ensures
        supplied(started(root), Some(text), table) == (Machine {
            files: Seq::empty(),
            out: text,
            phase: Phase::Finished,
        }),
{
    let none = Seq::<FileState>::empty();
    let file = FileState { path: root, rest: lines_of(text), frames: Seq::empty() };
    lemma_plain_lines_pass(lines_of(text), Seq::empty(), table);
    lemma_unlines_lines_of(text);
    assert(Seq::<char>::empty() + unlines(lines_of(text)) == text);
    assert(none.push(file).drop_last() == none);
    assert(none.push(file).last() == file);
}

/// An include of a file that cannot be read is as good as absent: once the
/// processor has been told that there is no such file, it stands where it
/// would stand if the line had not been there.
pub proof fn lemma_unreadable_include_is_skipped(
    below: Seq<FileState>,
    path: Seq<char>,
    frames: Seq<CondFrame>,
    line: Seq<char>,
    after: Seq<Seq<char>>,
    out: Seq<char>,
    target: Seq<char>,
    table: Table,
)
    requires
        line_step(frames, line, table) == Ok::<(Seq<CondFrame>, Request), Error>(
            (frames, Request::Include(target)),
        ),
    ensures
        ({
            let with = below.push(FileState { path, rest: seq![line] + after, frames });
            let without = below.push(FileState { path, rest: after, frames });
            let waiting = resumed(with, out, table);
            &&& waiting.phase == Phase::Awaiting(resolved(path, target))
            &&& waiting.out == out
            &&& supplied(waiting, None, table) == resumed(without, out, table)
        }),
{
    let lines = seq![line] + after;
    let with = below.push(FileState { path, rest: lines, frames });
    let without = below.push(FileState { path, rest: after, frames });
    assert(lines[0] == line);
    assert(lines.drop_first() == after);
    assert(with.last() == FileState { path, rest: lines, frames });
    assert(with.drop_last() == below);
}

/// A root file that cannot be read gives the empty output, and no error.
pub proof fn lemma_unreadable_root_gives_nothing(root: Seq<char>, table: Table)
    ensures
        supplied(started(root), None, table) == (Machine {
            files: Seq::empty(),
            out: Seq::empty(),
            phase: Phase::Finished,
        }),
{
}

/// A failure in any file fails the whole run, however many files wait for
/// that file: none of them goes on.
pub proof fn lemma_failure_fails_the_run(files: Seq<FileState>, out: Seq<char>, table: Table)
    requires
        files.len() > 0,
    ensures
        run_lines(files.last().rest, files.last().frames, out, table).stop matches Stop::Fail(e)
            ==> resumed(files, out, table).phase == Phase::Failed(e),
{
}

/// A file that ends inside a conditional fails.
pub proof fn lemma_open_conditional_fails(frames: Seq<CondFrame>, out: Seq<char>, table: Table)
    requires
        frames.len() > 0,
    ensures
        run_lines(Seq::empty(), frames, out, table).stop == Stop::Fail(Error::MissingEndif),
{
}

} // verus!

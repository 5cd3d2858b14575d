//! How other programs are asked.
use crate::json;
use crate::json::{parse_json, Json};
use crate::model;
use crate::path;
use crate::path::{join, name};
use crate::text;
use crate::text::{
    concat2, concat3, decimal_of, lines_of, same, split_of, starts, trim,
};
use vstd::prelude::*;
use vstd::string::*;

verus! {

broadcast use {text::lemma_views_push, text::lemma_views_add};

/// Whether a program is one of some, or a part of one: its name goes on with a hyphen.
pub open spec fn is_program(name: Seq<char>, programs: Seq<Seq<char>>) -> bool {
    exists|i: int|
        0 <= i < programs.len() && (name == #[trigger] programs[i] || (programs[i]
            + "-"@).is_prefix_of(name))
}

/// Whether one of some programs is among those that run, a line each.
pub open spec fn some_run(listing: Seq<Seq<char>>, programs: Seq<Seq<char>>) -> bool {
    exists|i: int|
        0 <= i < listing.len() && is_program(
            path::name_or_empty(text::trimmed(#[trigger] listing[i])),
            programs,
        )
}

fn matches_program(program: &str, programs: &Vec<String>) -> (r: bool)
    ensures
        r == is_program(program@, text::views(programs@)),
{
    let ghost all = text::views(programs@);
    let mut i: usize = 0;
    while i < programs.len()
        invariant
            i <= programs@.len(),
            all == text::views(programs@),
            forall|j: int|
                0 <= j < i ==> !(program@ == #[trigger] all[j] || (all[j] + "-"@).is_prefix_of(
                    program@,
                )),
        decreases programs@.len() - i,
    {
        assert(all[i as int] == programs@[i as int]@);
        if same(program, programs[i].as_str()) || starts(
            program,
            concat2(programs[i].as_str(), "-").as_str(),
        ) {
            return true;
        }
        i += 1;
    }
    false
}

/// Whether one of some programs is among those that run, by a listing of their commands.
pub fn running(output: &str, programs: &Vec<String>) -> (r: bool)
    ensures
        r == some_run(text::lines(output@), text::views(programs@)),
{
    let lines = lines_of(output);
    let ghost all = text::lines(output@);
    let mut i: usize = 0;
    while i < lines.len()
        invariant
            i <= lines@.len(),
            all == text::views(lines@),
            all == text::lines(output@),
            forall|j: int|
                0 <= j < i ==> !is_program(
                    path::name_or_empty(text::trimmed(#[trigger] all[j])),
                    text::views(programs@),
                ),
        decreases lines@.len() - i,
    {
        assert(all[i as int] == lines@[i as int]@);
        let program = name(trim(lines[i].as_str()).as_str());
        if matches_program(program.as_str(), programs) {
            return true;
        }
        i += 1;
    }
    false
}

/// Whether one of some programs may run: it does, or it cannot be told.
pub open spec fn may_run(listing: Option<Seq<char>>, programs: Seq<Seq<char>>) -> bool {
    match listing {
        Some(output) => some_run(text::lines(output), programs),
        None => true,
    }
}

/// Whether one of some programs may run, by a listing of the commands that do, if there is one.
pub fn possibly_running(listing: &Option<String>, programs: &Vec<String>) -> (r: bool)
    ensures
        r == may_run(model::optional_text(*listing), text::views(programs@)),
{
    match listing {
        Some(output) => running(output.as_str(), programs),
        None => true,
    }
}

/// The directories where programs are looked for: those of the search path, then the usual ones.
pub open spec fn program_places(search: Seq<char>, home: Option<Seq<char>>) -> Seq<Seq<char>> {
    text::split(search, ':') + seq!["/opt/homebrew/bin"@, "/usr/local/bin"@, "/usr/bin"@] + (
    match home {
        Some(h) => seq![
            path::joined(h, ".bun/bin"@),
            path::joined(h, ".orbstack/bin"@),
            path::joined(h, ".local/bin"@),
        ],
        None => Seq::empty(),
    })
}

/// Where a program may be, best first: it is the first of these that is a file. `search` is the
/// search path.
pub fn which(program: &str, search: &str, home: &Option<String>) -> (r: Vec<String>)
    ensures
        text::views(r@) == program_places(search@, model::optional_text(*home)).map_values(
            |d: Seq<char>| path::joined(d, program@),
        ),
{
    let mut dirs = split_of(search, ':');
    let ghost own = text::views(dirs@);
    dirs.push("/opt/homebrew/bin".to_owned());
    dirs.push("/usr/local/bin".to_owned());
    dirs.push("/usr/bin".to_owned());
    if let Some(h) = home {
        dirs.push(join(h.as_str(), ".bun/bin"));
        dirs.push(join(h.as_str(), ".orbstack/bin"));
        dirs.push(join(h.as_str(), ".local/bin"));
    }
    let ghost all = program_places(search@, model::optional_text(*home));
    assert(text::views(dirs@) =~= all);
    let mut out: Vec<String> = Vec::new();
    let mut i: usize = 0;
    while i < dirs.len()
        invariant
            i <= dirs@.len(),
            out@.len() == i,
            all == text::views(dirs@),
            forall|j: int| 0 <= j < i ==> #[trigger] out@[j]@ == path::joined(all[j], program@),
        decreases dirs@.len() - i,
    {
        out.push(join(dirs[i].as_str(), program));
        i += 1;
    }
    assert(text::views(out@) =~= all.map_values(|d: Seq<char>| path::joined(d, program@)));
    out
}

/// How long a program may take to answer a question, in seconds.
pub const QUERY_SECONDS: u64 = 8;

/// How long a program may take to carry out a command, in seconds.
pub const COMMAND_SECONDS: u64 = 300;

/// How much of what a program writes is kept before the rest is thrown away.
pub const OUTPUT_LIMIT: usize = 8_388_608;

/// Whether a further piece of what a program writes is kept, after so many bytes were.
pub fn keeps_output(kept: usize) -> (r: bool)
    ensures
        r == (kept < 8 * 1024 * 1024),
{
    kept < OUTPUT_LIMIT
}

/// What to do about a program that was started.
#[derive(Clone, Copy, Debug, PartialEq, Eq, Structural)]
pub enum Watch {
    /// It has ended.
    Ended,
    /// It has taken too long.
    Kill,
    Wait,
}

/// What to do about a program that was started so many nanoseconds ago.
pub fn watch(ended: bool, elapsed_nanos: u128, seconds: u64) -> (r: Watch)
    ensures
        r == (if ended {
            Watch::Ended
        } else if elapsed_nanos > seconds * 1_000_000_000 {
            Watch::Kill
        } else {
            Watch::Wait
        }),
{
    if ended {
        Watch::Ended
    } else if elapsed_nanos > seconds as u128 * 1_000_000_000 {
        Watch::Kill
    } else {
        Watch::Wait
    }
}

/// What went wrong, and what caused it.
#[derive(Debug)]
pub struct Failure {
    pub message: String,
    pub cause: Option<String>,
}

/// What went wrong, with its cause where there is one.
pub open spec fn full_text(message: Seq<char>, cause: Option<Seq<char>>) -> Seq<char> {
    match cause {
        Some(c) => message + ": "@ + c,
        None => message,
    }
}

impl Failure {
    /// What went wrong, with its cause.
    pub fn full(&self) -> (r: String)
        ensures
            r@ == full_text(self.message@, model::optional_text(self.cause)),
    {
        match &self.cause {
            Some(c) => concat3(self.message.as_str(), ": ", c.as_str()),
            None => self.message.clone(),
        }
    }
}

/// How a program came to its end.
#[derive(Debug)]
pub enum Ending {
    /// It could not be started.
    NotStarted(String),
    /// It could not be waited for, or what it wrote could not be read.
    Lost(String),
    TimedOut,
    /// It ended: whether it was successful, what it wrote, unless that is no text, and what it wrote
    /// of errors.
    Ended { success: bool, output: Result<String, String>, errors: String },
}

/// The answer of a program, or what went wrong and why.
pub open spec fn answer(executable: Seq<char>, seconds: u64, e: Ending) -> Result<
    Seq<char>,
    (Seq<char>, Option<Seq<char>>),
> {
    match e {
        Ending::NotStarted(error) => Err(("Cannot start "@ + executable, Some(error@))),
        Ending::Lost(error) => Err((error@, None)),
        Ending::TimedOut => Err(
            (executable + " timed out after "@ + text::decimal(seconds as nat) + "s"@, None),
        ),
        Ending::Ended { success, output, errors } => if !success {
            Err((path::name_or_empty(executable) + ": "@ + text::trimmed(errors@), None))
        } else {
            match output {
                Ok(o) => Ok(text::trimmed(o@)),
                Err(error) => Err((error@, None)),
            }
        },
    }
}

/// An answer by its contents.
pub open spec fn answer_text(r: Result<String, Failure>) -> Result<
    Seq<char>,
    (Seq<char>, Option<Seq<char>>),
> {
    match r {
        Ok(s) => Ok(s@),
        Err(f) => Err((f.message@, model::optional_text(f.cause))),
    }
}

fn failure(message: String) -> (r: Failure)
    ensures
        r.message@ == message@ && r.cause is None,
{
    Failure { message, cause: None }
}

/// The answer of a program, by how it came to its end: what it wrote without the white space around
/// it, if it was successful.
pub fn run(executable: &str, seconds: u64, ending: &Ending) -> (r: Result<String, Failure>)
    ensures
        answer_text(r) == answer(executable@, seconds, *ending),
{
    match ending {
        Ending::NotStarted(error) => Err(
            Failure { message: concat2("Cannot start ", executable), cause: Some(error.clone()) },
        ),
        Ending::Lost(error) => Err(failure(error.clone())),
        Ending::TimedOut => {
            let mut message = concat3(
                executable,
                " timed out after ",
                decimal_of(seconds).as_str(),
            );
            message.append("s");
            Err(failure(message))
        },
        Ending::Ended { success, output, errors } => if !*success {
            let said = trim(errors.as_str());
            Err(failure(concat3(name(executable).as_str(), ": ", said.as_str())))
        } else {
            match output {
                Ok(o) => Ok(trim(o.as_str())),
                Err(error) => Err(failure(error.clone())),
            }
        },
    }
}

/// The answer of a program that was asked a question.
pub fn query(executable: &str, ending: &Ending) -> (r: Result<String, Failure>)
    ensures
        answer_text(r) == answer(executable@, 8, *ending),
{
    run(executable, QUERY_SECONDS, ending)
}

/// The document that a program answers with, or what went wrong and why.
pub open spec fn answered_document(a: Result<Seq<char>, (Seq<char>, Option<Seq<char>>)>) -> Result<
    Json,
    (Seq<char>, Option<Seq<char>>),
> {
    match a {
        Err(f) => Err(f),
        Ok(s) => match json::json_document(s) {
            Ok(j) => Ok(j),
            Err(e) => Err((e, None)),
        },
    }
}

/// The document that a program answers with.
pub fn json(executable: &str, ending: &Ending) -> (r: Result<Json, Failure>)
    ensures
        match r {
            Ok(j) => answered_document(answer(executable@, 8, *ending)) == Ok::<
                Json,
                (Seq<char>, Option<Seq<char>>),
            >(j),
            Err(f) => answered_document(answer(executable@, 8, *ending)) == Err::<
                Json,
                (Seq<char>, Option<Seq<char>>),
            >((f.message@, model::optional_text(f.cause))),
        },
{
    match query(executable, ending) {
        Err(f) => Err(f),
        Ok(s) => match parse_json(s.as_str()) {
            Ok(j) => Ok(j),
            Err(e) => Err(failure(e)),
        },
    }
}

} // verus!

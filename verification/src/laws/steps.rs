//! How entries are removed, and what other programs are asked.
use crate::docker;
use crate::docker::DiscoveryView;
use crate::filesystem;
use crate::filesystem::{Probe, Surroundings};
use crate::inquiry;
use crate::inquiry::{ContextStepView, VolumeStepView};
use crate::json;
use crate::json::Json;
use crate::managed;
use crate::model::TargetView;
use crate::path;
use crate::path::Part;
use crate::platform::{FlagReply, Platform};
use crate::process;
use crate::process::Ending;
use crate::removal;
use crate::removal::{Frame, Phase, RemovalView, Reply, Stat, Wish};
use crate::text;
use vstd::prelude::*;

verus! {

/// Whether what was met is still the entry that was expected.
pub open spec fn still(s: Stat, expected: Stat) -> bool {
    s.device == expected.device && s.inode == expected.inode && s.mode == expected.mode
}

/// Whether the mode of an entry is that of a directory.
pub open spec fn mode_of_directory(s: Stat) -> bool {
    s.mode & 0xf000u32 == 0x4000u32
}

/// The entries above the one that is being removed stay what they were.
pub open spec fn keeps_those_above(before: RemovalView, after: RemovalView) -> bool {
    &&& after.platform == before.platform && after.device == before.device
    &&& after.frames.len() >= before.frames.len() - 1
    &&& forall|i: int|
        0 <= i < before.frames.len() - 1 ==> #[trigger] after.frames[i] == before.frames[i]
}

/// An entry that is met goes on only where it is the one expected, on the device of the target, and
/// not protected; then a directory is opened, and anything else is looked at once more.
pub proof fn law_met_entries_are_vetted(r: RemovalView, s: Stat)
    requires
        r.frames.len() > 0,
        r.frames.last().phase == Phase::First,
    ensures
        r.wish() == Wish::Stat,
        r.answered(Reply::Stat(s)) is Ok <==> still(s, r.frames.last().expected) && s.device
            == r.device && s.flags & 0x000e_0006u32 == 0,
        r.answered(Reply::Stat(s)) matches Ok(after) ==> {
            &&& keeps_those_above(r, after) && after.frames.len() == r.frames.len()
            &&& after.frames.last().expected == r.frames.last().expected
            &&& mode_of_directory(s) ==> after.wish() == Wish::Open
            &&& !mode_of_directory(s) ==> after.wish() == Wish::Stat && after.frames.last().phase
                == Phase::Again
        },
{
}

/// A directory that was opened is read only after it was found, once open, to be the one that was
/// met; on Linux its flags are asked for first, and must not say that it cannot be changed.
pub proof fn law_opened_directories_are_vetted(r: RemovalView, s: Stat, f: FlagReply)
    requires
        r.frames.len() > 0,
    ensures
        r.wish() == Wish::Open ==> (r.answered(Reply::Opened) matches Ok(after)
            && keeps_those_above(r, after) && after.frames.len() == r.frames.len()
            && after.frames.last().expected == r.frames.last().expected && after.wish() == (
        if r.platform == Platform::Linux {
            Wish::Flags
        } else {
            Wish::StatOpened
        })),
        r.wish() == Wish::Flags ==> (r.answered(Reply::Flags(f)) is Ok <==> match f {
            FlagReply::Unsupported => true,
            FlagReply::Failed => false,
            FlagReply::Flags(n) => n & 0x30u64 == 0,
        }) && (r.answered(Reply::Flags(f)) matches Ok(after) ==> after.wish() == Wish::StatOpened
            && after.frames.last().expected == r.frames.last().expected && after.frames.len()
            == r.frames.len() && keeps_those_above(r, after)),
        r.wish() == Wish::StatOpened ==> (r.answered(Reply::Stat(s)) is Ok <==> still(
            s,
            r.frames.last().expected,
        )) && (r.answered(Reply::Stat(s)) matches Ok(after) ==> after.wish() == Wish::Read
            && after.frames.last().expected == r.frames.last().expected && after.frames.len()
            == r.frames.len() && keeps_those_above(r, after)),
{
}

/// Every entry of a directory is met before the directory is looked at again: what is read is looked
/// at and removed in its turn, but for the directory itself and the one above; only once there are no
/// more entries does the directory have its turn.
pub proof fn law_directories_are_emptied_first(r: RemovalView, s: Stat, dots: bool)
    requires
        r.frames.len() > 0,
    ensures
        r.wish() == Wish::Read ==> {
            &&& r.answered(Reply::Entry { dots }) matches Ok(after) && (dots ==> after == r) && (!dots
                ==> after.wish() == Wish::StatChild && after.frames.len() == r.frames.len()
                && after.frames.last().expected == r.frames.last().expected && keeps_those_above(
                r,
                after,
            ))
            &&& r.answered(Reply::End) matches Ok(after) && after.wish() == Wish::Stat
                && after.frames.last().phase == Phase::Again && after.frames.last().expected
                == r.frames.last().expected && after.frames.len() == r.frames.len()
                && keeps_those_above(r, after)
        },
        r.wish() == Wish::StatChild ==> (r.answered(Reply::Stat(s)) matches Ok(after)
            && after.frames.len() == r.frames.len() + 1 && after.frames.last() == (Frame {
            expected: s,
            phase: Phase::First,
        }) && after.frames[r.frames.len() - 1] == (Frame {
            expected: r.frames.last().expected,
            phase: Phase::Reading,
        }) && keeps_those_above(r, after)),
{
}

/// An entry is removed where it is still the one that was met, as what it is; and with it gone, the
/// removal goes on with what was above it, or is done.
pub proof fn law_entries_are_removed_as_they_were_met(r: RemovalView, s: Stat)
    requires
        r.frames.len() > 0,
    ensures
        r.frames.last().phase == Phase::Again ==> r.wish() == Wish::Stat && (r.answered(
            Reply::Stat(s),
        ) is Ok <==> still(s, r.frames.last().expected)) && (r.answered(
            Reply::Stat(s),
        ) matches Ok(after) ==> after.wish() == (Wish::Unlink {
            directory: mode_of_directory(r.frames.last().expected),
        }) && after.frames.len() == r.frames.len() && keeps_those_above(r, after)),
        r.wish() is Unlink ==> (r.answered(Reply::Unlinked) matches Ok(after) && after.frames
            == r.frames.drop_last() && after.device == r.device && after.platform == r.platform && (
        after.wish() == Wish::Done <==> r.frames.len() == 1 || after.frames.len() == 0)),
{
}

/// Any other reply than the one that was asked for ends the removal.
pub proof fn law_other_replies_end_the_removal(r: RemovalView, reply: Reply)
    ensures
        r.answered(reply) is Ok ==> match r.wish() {
            Wish::Stat | Wish::StatOpened | Wish::StatChild => reply is Stat,
            Wish::Open => reply is Opened,
            Wish::Flags => reply is Flags,
            Wish::Read => reply is Entry || reply is End,
            Wish::Unlink { .. } => reply is Unlinked,
            Wish::Done => false,
        },
{
}

/// A target is removed exactly where it may be cleaned up, is still the one that was scanned, and
/// names an entry below directories that are named one by one from the root.
pub proof fn law_targets_that_may_go_are_removed(
    t: TargetView,
    around: &Surroundings,
    probe: &Probe,
)
    ensures
        removal::denial(t, around, probe) is None <==> {
            &&& filesystem::refused(t.path, around) is None
            &&& filesystem::changed(t, probe) is None
            &&& path::file_name(t.path) is Some
            &&& forall|i: int|
                0 <= i < path::parts(t.path).len() - 1 ==> (#[trigger] path::parts(t.path)[i]) is Root
                    || path::parts(t.path)[i] is Normal
        },
{
    let ps = path::parts(t.path);
    if ps.len() > 0 {
        assert(ps[ps.len() - 1] == ps.last());
        if ps == seq![Part::Root] {
            assert(ps.last() == Part::Root);
        }
    }
}

/// The directories that are opened on the way to a target are its components, but for the root.
pub proof fn law_the_way_goes_from_the_root(ps: Seq<Part>, n: Seq<char>)
    ensures
        removal::normal_names(ps.push(Part::Normal(n))) == removal::normal_names(ps).push(n),
        removal::normal_names(seq![Part::Root]) == Seq::<Seq<char>>::empty(),
        removal::normal_names(Seq::<Part>::empty()) == Seq::<Seq<char>>::empty(),
{
    assert(ps.push(Part::Normal(n)).drop_last() =~= ps);
    let none = Seq::<Part>::empty();
    assert(seq![Part::Root].drop_last() =~= none);
    assert(removal::normal_names(none) == Seq::<Seq<char>>::empty());
    assert(seq![Part::Root].last() == Part::Root);
}

/// Whether a line of a listing is about a program.
pub open spec fn is_about(line: Seq<char>, program: Seq<char>) -> bool {
    match path::file_name(text::trimmed(line)) {
        Some(n) => n == program || (n.len() > program.len() && program.is_prefix_of(n)
            && n[program.len() as int] == '-'),
        None => program.len() == 0,
    }
}

/// Programs run where a line of a listing names one of them, alone or with something added after a
/// hyphen; and where there is no listing they may run.
pub proof fn law_running_programs_are_told_by_name(
    output: Seq<char>,
    programs: Seq<Seq<char>>,
)
    ensures
        process::may_run(None, programs),
        process::may_run(Some(output), programs) <==> exists|i: int, k: int|
            0 <= i < text::lines(output).len() && 0 <= k < programs.len() && is_about(
                #[trigger] text::lines(output)[i],
                #[trigger] programs[k],
            ),
{
    reveal_strlit("-");
    let lines = text::lines(output);
    assert forall|i: int, k: int|
        0 <= i < lines.len() && 0 <= k < programs.len() implies is_about(
        #[trigger] lines[i],
        #[trigger] programs[k],
    ) == (path::name_or_empty(text::trimmed(lines[i])) == programs[k] || (programs[k]
        + "-"@).is_prefix_of(path::name_or_empty(text::trimmed(lines[i])))) by {
        lemma_begins(path::name_or_empty(text::trimmed(lines[i])), programs[k]);
        if path::file_name(text::trimmed(lines[i])) is None && programs[k].len() == 0 {
            assert(programs[k] =~= Seq::<char>::empty());
        }
    }
    if process::may_run(Some(output), programs) {
        let i = choose|i: int|
            0 <= i < lines.len() && process::is_program(
                path::name_or_empty(text::trimmed(#[trigger] lines[i])),
                programs,
            );
        let name = path::name_or_empty(text::trimmed(lines[i]));
        let k = choose|k: int|
            0 <= k < programs.len() && (name == #[trigger] programs[k] || (programs[k]
                + "-"@).is_prefix_of(name));
        assert(is_about(lines[i], programs[k]));
    }
    if exists|i: int, k: int|
        0 <= i < lines.len() && 0 <= k < programs.len() && is_about(
            #[trigger] lines[i],
            #[trigger] programs[k],
        ) {
        let (i, k) = choose|i: int, k: int|
            0 <= i < lines.len() && 0 <= k < programs.len() && is_about(
                #[trigger] lines[i],
                #[trigger] programs[k],
            );
        let name = path::name_or_empty(text::trimmed(lines[i]));
        assert(name == programs[k] || (programs[k] + "-"@).is_prefix_of(name));
        assert(process::is_program(name, programs));
    }
}

proof fn lemma_begins(n: Seq<char>, program: Seq<char>)
    ensures
        (program + "-"@).is_prefix_of(n) <==> n.len() > program.len() && program.is_prefix_of(n)
            && n[program.len() as int] == '-',
{
    reveal_strlit("-");
    let p = program + "-"@;
    assert(p.len() == program.len() + 1);
    if p.is_prefix_of(n) {
        assert(n.subrange(0, p.len() as int)[program.len() as int] == p[program.len() as int]);
        assert(program =~= p.subrange(0, program.len() as int));
        assert(n.subrange(0, program.len() as int) =~= program);
    }
    if n.len() > program.len() && program.is_prefix_of(n) && n[program.len() as int] == '-' {
        assert forall|i: int| 0 <= i < p.len() implies n[i] == p[i] by {
            if i < program.len() {
                assert(n.subrange(0, program.len() as int)[i] == program[i]);
            }
        }
        assert(n.subrange(0, p.len() as int) =~= p);
    }
}

/// Programs are looked for first where the search path says, in its order, and then in the usual
/// places; those below the home directory only where there is one.
pub proof fn law_programs_are_looked_for_on_the_search_path(
    search: Seq<char>,
    home: Option<Seq<char>>,
)
    ensures
        ({
            let places = process::program_places(search, home);
            let own = text::split(search, ':');
            let n = own.len() as int;
            &&& own.is_prefix_of(places)
            &&& places.len() == n + if home is Some {
                6int
            } else {
                3int
            }
            &&& places[n] == "/opt/homebrew/bin"@ && places[n + 1] == "/usr/local/bin"@ && places[n
                + 2] == "/usr/bin"@
            &&& home matches Some(h) ==> places[n + 3] == path::joined(h, ".bun/bin"@) && places[n
                + 4] == path::joined(h, ".orbstack/bin"@) && places[n + 5] == path::joined(
                h,
                ".local/bin"@,
            )
        }),
{
    let places = process::program_places(search, home);
    let own = text::split(search, ':');
    assert(places.subrange(0, own.len() as int) =~= own);
}

/// What a program answers is what it wrote, trimmed, where it ended well and wrote text; otherwise
/// the question failed, and what is told says which program, and why.
pub proof fn law_programs_answer_where_they_end_well(
    executable: Seq<char>,
    seconds: u64,
    e: Ending,
)
    ensures
        ({
            let a = process::answer(executable, seconds, e);
            &&& a is Ok <==> (e matches Ending::Ended { success, output, .. } && success && output
                is Ok)
            &&& (a matches Ok(s) ==> (e matches Ending::Ended { output, .. } && output matches Ok(o)
                && s == text::trimmed(o@)))
            &&& (e matches Ending::NotStarted(why) ==> a == Err::<
                Seq<char>,
                (Seq<char>, Option<Seq<char>>),
            >(("Cannot start "@ + executable, Some(why@))))
            &&& (e is TimedOut ==> a == Err::<Seq<char>, (Seq<char>, Option<Seq<char>>)>(
                (executable + " timed out after "@ + text::decimal(seconds as nat) + "s"@, None),
            ))
            &&& (e matches Ending::Ended { success, errors, .. } ==> !success ==> a == Err::<
                Seq<char>,
                (Seq<char>, Option<Seq<char>>),
            >((path::name_or_empty(executable) + ": "@ + text::trimmed(errors@), None)))
        }),
{
}

/// An answer is a document where it is an answer and reads as one.
pub proof fn law_answers_are_read_as_documents(
    a: Result<Seq<char>, (Seq<char>, Option<Seq<char>>)>,
)
    ensures
        process::answered_document(a) is Ok <==> (a matches Ok(s) && json::json_document(s) is Ok),
        process::answered_document(a) matches Ok(j) ==> (a matches Ok(s) && json::json_document(s)
            == Ok::<Json, Seq<char>>(j)),
        a matches Err(f) ==> process::answered_document(a) == Err::<
            Json,
            (Seq<char>, Option<Seq<char>>),
        >(f),
{
}

/// Docker is asked about the context that is wanted, unless its name is bad; otherwise for all of them.
pub proof fn law_docker_is_asked_for_contexts(wanted: Option<Seq<char>>)
    ensures
        wanted is None ==> inquiry::contexts_question(wanted) == Some(
            seq!["context"@, "ls"@, "--format"@, "{{json .}}"@],
        ),
        wanted matches Some(context) ==> (inquiry::contexts_question(wanted) matches Some(words)
            ==> words == seq!["context"@, "inspect"@, context]),
        wanted matches Some(context) ==> (inquiry::contexts_question(wanted) is None
            <==> context.len() == 0 || context[0] == '-'),
{
    reveal_strlit("-");
    if let Some(context) = wanted {
        if context.len() > 0 {
            if context[0] == '-' {
                assert(context.subrange(0, 1) =~= "-"@);
            }
            if "-"@.is_prefix_of(context) {
                assert(context.subrange(0, 1)[0] == '-');
            }
        }
    }
}

/// A context is asked for its description, then for the identity of its daemon, and only then for what
/// it can give back; and no further where its endpoint is not local, its daemon is known already, or
/// an answer fails. Every question names the context.
pub proof fn law_contexts_are_asked_in_turn(
    d: DiscoveryView,
    context: Seq<char>,
    j: Json,
    id: Seq<char>,
    e: Seq<char>,
)
    ensures
        inquiry::context_question(d, context, None, None, false) == ContextStepView::Describe(
            seq!["context"@, "inspect"@, context],
        ),
        inquiry::context_question(d, context, Some(Err(e)), None, false) is Enough,
        managed::named_endpoint(j) is Err ==> inquiry::context_question(
            d,
            context,
            Some(Ok(j)),
            None,
            false,
        ) is Enough,
        managed::named_endpoint(j) is Ok ==> {
            &&& inquiry::context_question(d, context, Some(Ok(j)), None, false)
                == ContextStepView::Identify(
                seq!["--context"@, context, "info"@, "--format"@, "{{.ID}}"@],
            )
            &&& inquiry::context_question(d, context, Some(Ok(j)), Some(Err(e)), false) is Enough
            &&& inquiry::context_question(d, context, Some(Ok(j)), Some(Ok(id)), true) is Enough
            &&& id.len() > 0 && !d.daemons.contains(id) ==> inquiry::context_question(
                d,
                context,
                Some(Ok(j)),
                Some(Ok(id)),
                false,
            ) == ContextStepView::Measure(
                seq!["--context"@, context, "system"@, "df"@, "--format"@, "{{json .}}"@],
            )
            &&& id.len() == 0 || d.daemons.contains(id) ==> inquiry::context_question(
                d,
                context,
                Some(Ok(j)),
                Some(Ok(id)),
                false,
            ) is Enough
        },
{
}

/// A volume is looked for among those that nothing uses, and then described, in its own context; what
/// is not among them is kept.
pub proof fn law_volumes_are_asked_for_in_turn(
    context: Seq<char>,
    name: Seq<char>,
    l: Seq<char>,
    e: Seq<char>,
)
    requires
        docker::is_volume_name(name),
    ensures
        inquiry::volume_question(context, name, None) == VolumeStepView::List(
            seq![
                "--context"@,
                context,
                "volume"@,
                "ls"@,
                "--filter"@,
                "dangling=true"@,
                "--format"@,
                "{{.Name}}"@,
            ],
        ),
        inquiry::volume_question(context, name, Some(Err(e))) == VolumeStepView::Refused(e),
        text::lines(l).contains(name) ==> inquiry::volume_question(context, name, Some(Ok(l)))
            == VolumeStepView::Inspect(seq!["--context"@, context, "volume"@, "inspect"@, name]),
        !text::lines(l).contains(name) ==> inquiry::volume_question(context, name, Some(Ok(l)))
            == VolumeStepView::Kept,
{
}

/// A builder is asked, in its own context, for what it has kept for three days or more.
pub proof fn law_builders_are_asked_for_what_is_old(context: Seq<char>, builder: Seq<char>)
    ensures
        inquiry::builder_words(context, builder) == seq![
            "--context"@,
            context,
            "buildx"@,
            "--builder"@,
            builder,
            "du"@,
            "--filter"@,
            "until=72h"@,
            "--format=json"@,
        ],
{
}

} // verus!
